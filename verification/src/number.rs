//! Numbers and their order.
//!
//! Numbers are ordered by their double precision values: an integer is first
//! rounded to the nearest value with a 53 bit significand, ties going to the
//! even one. Every finite double is a whole multiple of two to the power of
//! minus 1074, so the value of a number is stated as that multiple.
use vstd::arithmetic::div_mod::*;
use vstd::arithmetic::mul::*;
use vstd::arithmetic::power2::*;
use vstd::prelude::*;

use crate::text::{self, decimal_text};

verus! {

/// A number of a JSON document.
#[derive(Debug)]
pub enum JsonNumber {
    /// An integer that is not negative.
    PosInt(u64),
    /// A negative integer.
    NegInt(i64),
    /// Any other number: the bits of its double, which is finite, and the
    /// literal that stands for it.
    Float { bits: u64, text: String },
}

/// What distinguishes numbers. A float is known by its value alone, so that
/// both zeros are one number, and is never the same number as an integer.
pub enum NumberView {
    PosInt(u64),
    NegInt(i64),
    Float(int),
}

impl View for JsonNumber {
    type V = NumberView;

    open spec fn view(&self) -> NumberView {
        match self {
            JsonNumber::PosInt(n) => NumberView::PosInt(*n),
            JsonNumber::NegInt(n) => NumberView::NegInt(*n),
            JsonNumber::Float { bits, .. } => NumberView::Float(double_value(*bits)),
        }
    }
}

/// How many binary places `n` has beyond the 53rd.
pub open spec fn excess_bits(n: nat) -> nat
    decreases n,
{
    if n < pow2(53) {
        0
    } else {
        proof {
            lemma_pow2_pos(53);
        }
        excess_bits(n / 2) + 1
    }
}

/// `q` or `q + 1`, whichever is nearer to `q + r / unit`; the even one when
/// both are equally near.
pub open spec fn nearest(q: nat, r: nat, unit: nat) -> nat {
    if 2 * r < unit || (2 * r == unit && q % 2 == 0) {
        q
    } else {
        q + 1
    }
}

/// `n` rounded to a 53 bit significand, ties to even.
pub open spec fn rounded(n: nat) -> nat {
    let unit = pow2(excess_bits(n));
    nearest(n / unit, n % unit, unit) * unit
}

/// The magnitude held by the 63 low bits of a double, as a multiple of two to
/// the power of minus 1074: the exponent field stands above a fraction of 52
/// bits, and all exponents but zero imply a leading one.
pub open spec fn magnitude(bits: nat) -> nat {
    let exponent = bits / pow2(52);
    let fraction = bits % pow2(52);
    if exponent == 0 {
        fraction
    } else {
        (pow2(52) + fraction) * pow2((exponent - 1) as nat)
    }
}

/// The value of a double, as a multiple of two to the power of minus 1074.
pub open spec fn double_value(bits: u64) -> int {
    if bits < 0x8000_0000_0000_0000u64 {
        magnitude(bits as nat) as int
    } else {
        -magnitude((bits - 0x8000_0000_0000_0000u64) as nat)
    }
}

/// The double nearest to an integer, as a multiple of two to the power of
/// minus 1074.
pub open spec fn integer_value(n: int) -> int {
    if n < 0 {
        -(rounded((-n) as nat) * pow2(1074))
    } else {
        (rounded(n as nat) * pow2(1074)) as int
    }
}

/// The double precision value of a number, as a multiple of two to the power
/// of minus 1074.
pub open spec fn num_value(n: NumberView) -> int {
    match n {
        NumberView::PosInt(n) => integer_value(n as int),
        NumberView::NegInt(n) => integer_value(n as int),
        NumberView::Float(value) => value,
    }
}

/// A significand of 53 bits over the exponent `k` stands for its product with
/// that power of two.
proof fn lemma_magnitude_of(k: nat, m: nat)
    requires
        pow2(52) <= m <= pow2(53),
    ensures
        magnitude((k * pow2(52) + m) as nat) == m * pow2(k),
{
    let w = pow2(52);
    let bits = (k * w + m) as nat;
    lemma_pow2_pos(52);
    lemma_pow2_unfold(53);
    assert(pow2(53) == 2 * w);
    if m < 2 * w {
        assert(bits == (k + 1) * w + (m - w)) by (nonlinear_arith)
            requires
                bits == k * w + m,
        ;
        lemma_fundamental_div_mod_converse(bits as int, w as int, (k + 1) as int, m - w);
    } else {
        assert(bits == (k + 2) * w) by (nonlinear_arith)
            requires
                bits == k * w + m,
                m == 2 * w,
        ;
        lemma_fundamental_div_mod_converse(bits as int, w as int, (k + 2) as int, 0);
        lemma_pow2_unfold(k + 1);
        assert(w * (2 * pow2(k)) == (2 * w) * pow2(k)) by (nonlinear_arith);
    }
}

/// A larger bit pattern stands for a larger magnitude.
proof fn lemma_magnitude_increases(a: nat, b: nat)
    requires
        a < b,
    ensures
        magnitude(a) < magnitude(b),
{
    let w = pow2(52);
    lemma_pow2_pos(52);
    let (ea, fa) = (a / w, a % w);
    let (eb, fb) = (b / w, b % w);
    lemma_fundamental_div_mod(a as int, w as int);
    lemma_fundamental_div_mod(b as int, w as int);
    assert(ea <= eb) by (nonlinear_arith)
        requires
            a == w * ea + fa,
            b == w * eb + fb,
            a < b,
            0 <= fa < w,
            0 <= fb < w,
    ;
    if ea == eb {
        assert(fa < fb);
        if ea > 0 {
            let p = pow2((ea - 1) as nat);
            lemma_pow2_pos((ea - 1) as nat);
            assert((w + fa) * p < (w + fb) * p) by (nonlinear_arith)
                requires
                    fa < fb,
                    p > 0,
            ;
        }
    } else {
        let q = pow2((eb - 1) as nat);
        lemma_pow2_pos((eb - 1) as nat);
        assert(w <= w * q) by (nonlinear_arith)
            requires
                q > 0,
        ;
        assert(w * q <= (w + fb) * q) by (nonlinear_arith)
            requires
                q > 0,
                fb >= 0,
        ;
        if ea > 0 {
            let p = pow2((ea - 1) as nat);
            lemma_pow2_pos((ea - 1) as nat);
            lemma_pow2_unfold(ea);
            assert(2 * p <= q) by {
                if ea < eb - 1 {
                    lemma_pow2_strictly_increases(ea, (eb - 1) as nat);
                }
            }
            assert((w + fa) * p < w * q) by (nonlinear_arith)
                requires
                    fa < w,
                    p > 0,
                    w > 0,
                    2 * p <= q,
            ;
        }
    }
}

/// The bits of the double nearest to `n`.
fn double_bits(n: u64) -> (r: u64)
    ensures
        r < 0x8000_0000_0000_0000u64,
        magnitude(r as nat) == rounded(n as nat) * pow2(1074),
{
    proof {
        lemma2_to64();
        lemma2_to64_rest();
    }
    let mut q: u64 = n;
    let mut unit: u64 = 1;
    let mut places: u64 = 0;
    while q >= 0x20_0000_0000_0000u64
        invariant
            pow2(53) == 0x20_0000_0000_0000,
            pow2(0) == 1,
            pow2(11) == 0x800,
            places <= 11,
            unit == pow2(places as nat),
            unit <= 0x800,
            q == n as nat / pow2(places as nat),
            q * unit <= n,
            excess_bits(n as nat) == places + excess_bits(q as nat),
        decreases q,
    {
        proof {
            assert(places < 11) by (nonlinear_arith)
                requires
                    q >= 0x20_0000_0000_0000u64,
                    q * unit <= n,
                    n <= 0xffff_ffff_ffff_ffffu64,
                    places <= 11,
                    places == 11 ==> unit == 0x800,
            ;
            lemma_pow2_unfold((places + 1) as nat);
            lemma_pow2_pos(places as nat);
            lemma_div_denominator(n as int, unit as int, 2);
            assert(excess_bits(q as nat) == excess_bits((q / 2) as nat) + 1);
            assert((q / 2) * (unit * 2) <= q * unit) by (nonlinear_arith)
                requires
                    q >= 0,
                    unit >= 0,
            ;
            if places < 10 {
                lemma_pow2_strictly_increases((places + 1) as nat, 11);
            }
        }
        q = q / 2;
        unit = unit * 2;
        places = places + 1;
    }
    let r: u64 = n % unit;
    let up = !(2 * r < unit || (2 * r == unit && q % 2 == 0));
    let mut m: u64 = if up {
        q + 1
    } else {
        q
    };
    let ghost value: nat = rounded(n as nat);
    assert(value == m * unit);
    if m == 0 {
        assert(value == 0) by (nonlinear_arith)
            requires
                value == m * unit,
                m == 0,
        ;
        assert(0nat * pow2(1074) == 0) by (nonlinear_arith);
        assert(magnitude(0) == 0);
        return 0;
    }
    let mut exponent: u64 = places + 1074;
    let mut doublings: u64 = 0;
    proof {
        lemma_pow2_adds(places as nat, 1074);
        lemma_mul_is_associative(m as int, unit as int, pow2(1074) as int);
    }
    while m < 0x10_0000_0000_0000u64
        invariant
            pow2(52) == 0x10_0000_0000_0000,
            pow2(53) == 0x20_0000_0000_0000,
            0 < m <= 0x20_0000_0000_0000u64,
            places <= 11,
            doublings <= 52,
            exponent == places + 1074 - doublings,
            m >= pow2(doublings as nat),
            m * pow2(exponent as nat) == value * pow2(1074),
        decreases 0x20_0000_0000_0000u64 - m,
    {
        proof {
            if doublings == 52 {
                assert(false);
            }
            lemma_pow2_unfold((doublings + 1) as nat);
            lemma_pow2_unfold(exponent as nat);
            let half = pow2((exponent - 1) as nat);
            assert((2 * m) * half == m * (2 * half)) by (nonlinear_arith);
        }
        m = m * 2;
        exponent = exponent - 1;
        doublings = doublings + 1;
    }
    proof {
        lemma_magnitude_of(exponent as nat, m as nat);
    }
    exponent * 0x10_0000_0000_0000u64 + m
}

/// A number that orders as the double with the bits `bits` does: the bits
/// below the sign, negative for a negative double.
pub open spec fn signed_bits(key: i64) -> int {
    if key < 0 {
        -magnitude((-key) as nat)
    } else {
        magnitude(key as nat) as int
    }
}

proof fn lemma_signed_bits_order(a: i64, b: i64)
    ensures
        (a < b) == (signed_bits(a) < signed_bits(b)),
        (a == b) == (signed_bits(a) == signed_bits(b)),
{
    lemma_pow2_pos(52);
    assert(magnitude(0) == 0);
    let (x, y) = (if a < 0 { -a } else { a as int }, if b < 0 { -b } else { b as int });
    if x > 0 {
        lemma_magnitude_increases(0, x as nat);
    }
    if y > 0 {
        lemma_magnitude_increases(0, y as nat);
    }
    if x < y {
        lemma_magnitude_increases(x as nat, y as nat);
    }
    if y < x {
        lemma_magnitude_increases(y as nat, x as nat);
    }
}

/// The literal of a number.
pub open spec fn number_text(n: JsonNumber) -> Seq<char> {
    match n {
        JsonNumber::PosInt(n) => text::decimal(n as nat),
        JsonNumber::NegInt(n) => integer_text(n as int),
        JsonNumber::Float { text, .. } => text@,
    }
}

/// The literal of an integer.
pub open spec fn integer_text(n: int) -> Seq<char> {
    if n < 0 {
        seq!['-'] + text::decimal((-n) as nat)
    } else {
        text::decimal(n as nat)
    }
}

impl JsonNumber {
    /// The literal of this number.
    pub fn text(&self) -> (r: String)
        ensures
            r@ == number_text(*self),
    {
        match self {
            JsonNumber::PosInt(n) => decimal_text(*n),
            JsonNumber::NegInt(n) => {
                if *n < 0 {
                    let mut r = "-".to_owned();
                    proof {
                        reveal_strlit("-");
                    }
                    r.append(decimal_text((-(*n as i128)) as u64).as_str());
                    assert(r@ =~= number_text(*self));
                    r
                } else {
                    decimal_text(*n as u64)
                }
            },
            JsonNumber::Float { text, .. } => text.clone(),
        }
    }

    /// A key by which numbers are ordered.
    fn key(&self) -> (r: i64)
        ensures
            signed_bits(r) == num_value(self@),
    {
        proof {
            lemma_pow2_pos(52);
            assert(magnitude(0) == 0);
        }
        match self {
            JsonNumber::PosInt(n) => double_bits(*n) as i64,
            JsonNumber::NegInt(n) => {
                if *n >= 0 {
                    double_bits(*n as u64) as i64
                } else {
                    let m: u64 = (-(*n as i128)) as u64;
                    -(double_bits(m) as i64)
                }
            },
            JsonNumber::Float { bits, .. } => {
                let bits: u64 = *bits;
                if bits < 0x8000_0000_0000_0000u64 {
                    bits as i64
                } else {
                    -((bits - 0x8000_0000_0000_0000u64) as i64)
                }
            },
        }
    }

    /// Whether this number's double precision value is below another's.
    pub fn less(&self, other: &JsonNumber) -> (r: bool)
        ensures
            r == (num_value(self@) < num_value(other@)),
    {
        let (a, b) = (self.key(), other.key());
        proof {
            lemma_signed_bits_order(a, b);
        }
        a < b
    }

    /// Whether both are the same number: the same integer, or floats of the
    /// same value.
    pub fn equals(&self, other: &JsonNumber) -> (r: bool)
        ensures
            r == (self@ == other@),
    {
        match (self, other) {
            (JsonNumber::PosInt(a), JsonNumber::PosInt(b)) => *a == *b,
            (JsonNumber::NegInt(a), JsonNumber::NegInt(b)) => *a == *b,
            (JsonNumber::Float { .. }, JsonNumber::Float { .. }) => {
                let (a, b) = (self.key(), other.key());
                proof {
                    lemma_signed_bits_order(a, b);
                }
                a == b
            },
            _ => false,
        }
    }

    /// A copy of this number.
    pub fn copy(&self) -> (r: JsonNumber)
        ensures
            r@ == self@,
            number_text(r) == number_text(*self),
    {
        match self {
            JsonNumber::PosInt(n) => JsonNumber::PosInt(*n),
            JsonNumber::NegInt(n) => JsonNumber::NegInt(*n),
            JsonNumber::Float { bits, text } => JsonNumber::Float { bits: *bits, text: text.clone() },
        }
    }
}

/// Below two to the power of 53 a double holds every integer exactly.
pub proof fn small_integers_are_exact(n: nat)
    requires
        n < 0x20_0000_0000_0000,
    ensures
        rounded(n) == n,
{
    lemma2_to64();
    lemma2_to64_rest();
    assert(excess_bits(n) == 0);
    assert(pow2(0) == 1);
    assert(n / 1 == n && n % 1 == 0);
    assert(nearest(n, 0, 1) == n);
    assert(n * 1 == n);
}

/// Integers that a double holds exactly are ordered as their doubles are.
pub proof fn exact_integers_keep_their_order(a: int, b: int)
    requires
        -0x20_0000_0000_0000 < a < 0x20_0000_0000_0000,
        -0x20_0000_0000_0000 < b < 0x20_0000_0000_0000,
    ensures
        (a < b) == (integer_value(a) < integer_value(b)),
        (a == b) == (integer_value(a) == integer_value(b)),
{
    let p = pow2(1074) as int;
    lemma_pow2_pos(1074);
    assert(p > 0);
    lemma_exact_value(a);
    lemma_exact_value(b);
    assert(a < b ==> a * p < b * p) by (nonlinear_arith)
        requires
            p > 0,
    ;
    assert(b < a ==> b * p < a * p) by (nonlinear_arith)
        requires
            p > 0,
    ;
}

proof fn lemma_exact_value(n: int)
    requires
        -0x20_0000_0000_0000 < n < 0x20_0000_0000_0000,
    ensures
        integer_value(n) == n * pow2(1074),
{
    let p = pow2(1074) as int;
    if n < 0 {
        small_integers_are_exact((-n) as nat);
        assert(-((-n) * p) == n * p) by (nonlinear_arith);
    } else {
        small_integers_are_exact(n as nat);
    }
}

/// The double of an integer is at most half a unit of its last place away from
/// it, and is a whole number of such units.
pub proof fn rounding_goes_to_the_nearest(n: nat)
    ensures
        ({
            let unit = pow2(excess_bits(n)) as int;
            &&& rounded(n) % unit as nat == 0
            &&& 2 * (rounded(n) - n) <= unit
            &&& 2 * (n - rounded(n)) <= unit
            &&& n / unit as nat <= 0x20_0000_0000_0000
        }),
{
    let unit = pow2(excess_bits(n));
    lemma_pow2_pos(excess_bits(n));
    lemma_fundamental_div_mod(n as int, unit as int);
    let (q, r) = (n / unit, n % unit);
    let m = nearest(q, r, unit);
    assert(rounded(n) == m * unit);
    assert(n == unit * q + r);
    lemma_mod_multiples_basic(m as int, unit as int);
    assert(m == q ==> m * unit == unit * q) by (nonlinear_arith);
    assert(m == q + 1 ==> m * unit == unit * q + unit) by (nonlinear_arith);
    lemma_excess_bits(n);
}

proof fn lemma_excess_bits(n: nat)
    ensures
        n / pow2(excess_bits(n)) < pow2(53),
        pow2(53) == 0x20_0000_0000_0000,
    decreases n,
{
    lemma2_to64();
    lemma2_to64_rest();
    if n < pow2(53) {
        assert(n / 1 == n);
    } else {
        lemma_excess_bits(n / 2);
        let e = excess_bits(n / 2);
        lemma_pow2_unfold((e + 1) as nat);
        lemma_pow2_pos(e);
        lemma_div_denominator(n as int, 2, pow2(e) as int);
        assert(2 * pow2(e) == pow2((e + 1) as nat));
    }
}

/// Floats without a sign are ordered as their bits, those with a sign the other
/// way round, and the latter are never above the former.
pub proof fn floats_are_ordered_by_their_bits(a: u64, b: u64)
    requires
        a < 0x8000_0000_0000_0000,
        b < 0x8000_0000_0000_0000,
    ensures
        (a < b) == (num_value(NumberView::Float(double_value(a))) < num_value(
            NumberView::Float(double_value(b)),
        )),
        double_value((a + 0x8000_0000_0000_0000) as u64) == -double_value(a),
        double_value(a) >= 0,
{
    if a < b {
        lemma_magnitude_increases(a as nat, b as nat);
    }
    if b < a {
        lemma_magnitude_increases(b as nat, a as nat);
    }
}

/// The double that stands for a power of two has the value of that integer.
pub proof fn powers_of_two_are_integers(k: nat)
    requires
        k < 53,
    ensures
        magnitude(((k + 1023) * pow2(52)) as nat) == integer_value(pow2(k) as int),
{
    let w = pow2(52);
    lemma_pow2_pos(52);
    lemma_pow2_unfold(53);
    lemma_magnitude_of((k + 1022) as nat, w);
    assert((k + 1022) * w + w == (k + 1023) * w) by (nonlinear_arith);
    lemma_pow2_adds(52, (k + 1022) as nat);
    lemma_pow2_adds(k, 1074);
    lemma2_to64();
    lemma2_to64_rest();
    if k < 52 {
        lemma_pow2_strictly_increases(k, 52);
    }
    lemma_exact_value(pow2(k) as int);
}

/// A negative integer is written as a minus sign and the numeral of what it is
/// without it, any other as its numeral.
pub proof fn integers_are_written_with_their_sign(n: int)
    requires
        n > 0,
    ensures
        integer_text(-n) == seq!['-'] + text::decimal(n as nat),
        integer_text(n) == text::decimal(n as nat),
{
}

/// An integer is the number that it is, and a float the value of its bits,
/// whatever literal stands for it.
pub proof fn numbers_are_known_by_their_value(n: JsonNumber)
    ensures
        n matches JsonNumber::PosInt(i) ==> n@ == NumberView::PosInt(i),
        n matches JsonNumber::NegInt(i) ==> n@ == NumberView::NegInt(i),
        n matches JsonNumber::Float { bits, text } ==> n@ == NumberView::Float(double_value(bits)),
{
}

/// An integer is written in decimal, and a float as the literal that stands for
/// it.
pub proof fn numbers_are_written_as_literals(n: JsonNumber)
    ensures
        n matches JsonNumber::PosInt(i) ==> number_text(n) == text::decimal(i as nat),
        n matches JsonNumber::NegInt(i) ==> number_text(n) == integer_text(i as int),
        n matches JsonNumber::Float { bits, text: literal } ==> number_text(n) == literal@,
{
}

proof fn lemma_excess_bits_of(n: nat, q: nat, k: nat)
    requires
        pow2(52) <= q < pow2(53),
        q * pow2(k) <= n < (q + 1) * pow2(k),
    ensures
        excess_bits(n) == k,
    decreases k,
{
    lemma_pow2_pos(53);
    if k == 0 {
        assert(pow2(0) == 1) by {
            lemma2_to64();
        }
        assert(q * 1 == q && (q + 1) * 1 == q + 1);
    } else {
        let half = pow2((k - 1) as nat);
        lemma_pow2_unfold(k);
        lemma_pow2_unfold(53);
        lemma_pow2_pos((k - 1) as nat);
        assert(pow2(k) == 2 * half);
        assert(q * pow2(k) == 2 * (q * half)) by (nonlinear_arith)
            requires
                pow2(k) == 2 * half,
        ;
        assert((q + 1) * pow2(k) == 2 * ((q + 1) * half)) by (nonlinear_arith)
            requires
                pow2(k) == 2 * half,
        ;
        assert(q * half >= q) by (nonlinear_arith)
            requires
                half >= 1,
        ;
        assert(q * half <= n / 2 < (q + 1) * half);
        lemma_excess_bits_of(n / 2, q, (k - 1) as nat);
        assert(n >= pow2(53));
    }
}

/// An integer half way between two neighbouring doubles goes to the one whose last
/// bit is zero.
pub proof fn ties_go_to_the_even_one(n: nat, q: nat, k: nat)
    requires
        pow2(52) <= q < pow2(53),
        n == q * pow2(k + 1) + pow2(k),
    ensures
        q % 2 == 0 ==> rounded(n) == q * pow2(k + 1),
        q % 2 == 1 ==> rounded(n) == (q + 1) * pow2(k + 1),
{
    let unit = pow2(k + 1);
    let r = pow2(k);
    lemma_pow2_pos(k);
    lemma_pow2_unfold(k + 1);
    assert(unit == 2 * r);
    assert((q + 1) * unit == q * unit + unit) by (nonlinear_arith);
    lemma_excess_bits_of(n, q, k + 1);
    lemma_fundamental_div_mod_converse(n as int, unit as int, q as int, r as int);
}

/// The value of an integer is that of the double nearest to it, with its sign, and
/// integers and floats are valued alike.
pub proof fn integers_have_the_value_of_their_double(n: nat, bits: u64, a: u64, b: i64)
    ensures
        integer_value(n as int) == rounded(n) * pow2(1074),
        integer_value(-(n as int)) == -(rounded(n) * pow2(1074)),
        num_value(NumberView::PosInt(a)) == integer_value(a as int),
        num_value(NumberView::NegInt(b)) == integer_value(b as int),
        num_value(NumberView::Float(double_value(bits))) == double_value(bits),
{
    if n == 0 {
        small_integers_are_exact(0);
        assert(0 * pow2(1074) == 0);
    }
}

} // verus!
