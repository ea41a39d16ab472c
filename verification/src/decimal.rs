//! Fixed-point decimal numbers, as `rust_decimal` represents them: a 96-bit mantissa,
//! a power-of-ten scale of at most 28 and a sign flag (which a zero may carry too).
use vstd::prelude::*;
use rust_decimal::Decimal;

verus! {

/// 2 to the power 96: one more than the largest mantissa magnitude.
pub open spec fn mantissa_bound() -> int {
    79228162514264337593543950336
}

/// Ten to the power `n`.
pub open spec fn pow10(n: nat) -> int
    decreases n,
{
    if n == 0 {
        1
    } else {
        10 * pow10((n - 1) as nat)
    }
}

/// A decimal number: `mantissa / 10^scale`, with a sign flag that also a zero may carry.
#[derive(Debug, Clone, Copy)]
pub struct DecimalValue {
    pub mantissa: i128,
    pub scale: u32,
    pub negative: bool,
}

impl DecimalValue {
    /// The values that a `rust_decimal::Decimal` can hold.
    pub open spec fn wf(self) -> bool {
        &&& self.scale <= 28
        &&& -mantissa_bound() < self.mantissa < mantissa_bound()
        &&& self.mantissa != 0 ==> (self.negative <==> self.mantissa < 0)
    }

    /// Zero, with scale 0 and no sign.
    pub fn zero() -> (r: DecimalValue)
        ensures
            r.wf(),
            r.mantissa == 0,
            r.scale == 0,
            !r.negative,
    {
        DecimalValue { mantissa: 0, scale: 0, negative: false }
    }
}

/// The larger of two scales.
pub open spec fn max_scale(a: DecimalValue, b: DecimalValue) -> nat {
    if a.scale >= b.scale {
        a.scale as nat
    } else {
        b.scale as nat
    }
}

/// The mantissa of `a` written at the larger scale `s`.
pub open spec fn at_scale(a: DecimalValue, s: nat) -> int {
    a.mantissa * pow10((s - a.scale) as nat)
}

/// The exact sum of `a` and `b`, as a mantissa at the larger of their scales.
pub open spec fn aligned_sum(a: DecimalValue, b: DecimalValue) -> int {
    at_scale(a, max_scale(a, b)) + at_scale(b, max_scale(a, b))
}

/// The exact sum of `a` and `b` is at most `2^96 - 1` (the largest decimal) in magnitude.
pub open spec fn add_in_range(a: DecimalValue, b: DecimalValue) -> bool {
    let bound = (mantissa_bound() - 1) * pow10(max_scale(a, b));
    -bound <= aligned_sum(a, b) <= bound
}

/// `a` is less than `b` as a number (the sign of a zero does not count).
pub open spec fn decimal_lt(a: DecimalValue, b: DecimalValue) -> bool {
    a.mantissa * pow10(b.scale as nat) < b.mantissa * pow10(a.scale as nat)
}

/// The decimal digits of `n`, most significant first; empty for zero.
pub open spec fn digits(n: nat) -> Seq<char>
    decreases n,
{
    if n == 0 {
        Seq::empty()
    } else {
        digits(n / 10).push(((48 + n % 10) as u8) as char)
    }
}

/// The magnitude of the mantissa.
pub open spec fn magnitude(a: DecimalValue) -> nat {
    if a.mantissa < 0 {
        (-a.mantissa) as nat
    } else {
        a.mantissa as nat
    }
}

/// The digits of the magnitude, with zeros in front up to at least `scale` digits.
pub open spec fn padded_digits(a: DecimalValue) -> Seq<char> {
    let d = digits(magnitude(a));
    if d.len() < a.scale {
        Seq::new((a.scale - d.len()) as nat, |i: int| '0') + d
    } else {
        d
    }
}

/// How `rust_decimal` writes a decimal: a `-` for the sign flag, the whole digits
/// (`0` when there are none), and for a positive scale a `.` and exactly `scale`
/// fraction digits.
pub open spec fn decimal_text(a: DecimalValue) -> Seq<char> {
    let sign = if a.negative { seq!['-'] } else { Seq::<char>::empty() };
    let p = padded_digits(a);
    let body = if a.scale == 0 {
        if p.len() == 0 { seq!['0'] } else { p }
    } else {
        let w = p.len() - a.scale;
        (if w == 0 { seq!['0'] } else { p.take(w) }) + seq!['.'] + p.skip(w)
    };
    sign + body
}

/// No decimal digit is a minus sign.
proof fn lemma_digits_unsigned(n: nat)
    ensures
        forall|i: int| 0 <= i < digits(n).len() ==> #[trigger] digits(n)[i] != '-',
    decreases n,
{
    if n > 0 {
        lemma_digits_unsigned(n / 10);
        let k = n % 10;
        assert(48 <= 48 + k < 58);
        assert(((48 + k) as u8) as char != '-');
        assert forall|i: int| 0 <= i < digits(n).len() implies #[trigger] digits(n)[i] != '-' by {
            if i < digits(n / 10).len() {
                assert(digits(n)[i] == digits(n / 10)[i]);
            }
        }
    }
}

/// The text of a decimal starts with a minus sign exactly when its sign flag is set.
pub proof fn lemma_text_sign(a: DecimalValue)
    ensures
        decimal_text(a).len() > 0,
        decimal_text(a)[0] == '-' <==> a.negative,
{
    let d = digits(magnitude(a));
    lemma_digits_unsigned(magnitude(a));
    let p = padded_digits(a);
    assert(p.len() > 0 ==> p[0] != '-') by {
        if d.len() < a.scale {
            assert(p[0] == '0');
        } else if p.len() > 0 {
            assert(p[0] == d[0]);
        }
    }
    let sign = if a.negative { seq!['-'] } else { Seq::<char>::empty() };
    let body = if a.scale == 0 {
        if p.len() == 0 { seq!['0'] } else { p }
    } else {
        let w = p.len() - a.scale;
        (if w == 0 { seq!['0'] } else { p.take(w) }) + seq!['.'] + p.skip(w)
    };
    assert(body.len() > 0 && body[0] != '-') by {
        if a.scale != 0 {
            let w = p.len() - a.scale;
            if w != 0 {
                assert(p.len() >= a.scale);
                assert(p.take(w)[0] == p[0]);
            }
        }
    }
    assert(decimal_text(a) == sign + body);
    if a.negative {
        assert((sign + body)[0] == '-');
    } else {
        assert(sign + body =~= body);
    }
}

/// The number `a` times `10^28`, an integer for every scale up to 28.
pub open spec fn scaled_value(a: DecimalValue) -> int {
    a.mantissa * pow10((28 - a.scale) as nat)
}

/// Where the wrapper of `Decimal::checked_add` states an exact result: one side is zero, or
/// the exact sum fits in 96 bits at the larger scale.
pub open spec fn sum_is_exact(a: DecimalValue, b: DecimalValue) -> bool {
    a.mantissa == 0 || b.mantissa == 0 || -mantissa_bound() < aligned_sum(a, b) < mantissa_bound()
}

/// Ten to a sum of powers is the product of the powers.
pub proof fn lemma_pow10_add(a: nat, b: nat)
    ensures
        pow10(a + b) == pow10(a) * pow10(b),
    decreases a,
{
    if a > 0 {
        lemma_pow10_add((a - 1) as nat, b);
        assert(pow10(a + b) == 10 * pow10((a + b - 1) as nat));
        assert((a + b - 1) as nat == ((a - 1) as nat + b) as nat);
        assert(10 * (pow10((a - 1) as nat) * pow10(b)) == (10 * pow10((a - 1) as nat)) * pow10(b)) by (nonlinear_arith);
    }
}

/// Powers of ten are positive and grow with the exponent.
pub proof fn lemma_pow10_mono(a: nat, b: nat)
    requires
        a <= b,
    ensures
        0 < pow10(a) <= pow10(b),
    decreases b,
{
    if b > 0 {
        if a < b {
            lemma_pow10_mono(a, (b - 1) as nat);
        } else {
            lemma_pow10_mono((a - 1) as nat, (b - 1) as nat);
        }
    }
}

/// The exact sum at the larger scale, times ten to the scales missing up to 28, is the sum of
/// the scaled values.
pub proof fn lemma_aligned_scaled(a: DecimalValue, b: DecimalValue)
    requires
        a.wf(),
        b.wf(),
    ensures
        aligned_sum(a, b) * pow10((28 - max_scale(a, b)) as nat) == scaled_value(a) + scaled_value(b),
{
    let m = max_scale(a, b);
    let k = (28 - m) as nat;
    let da = (m - a.scale) as nat;
    let db = (m - b.scale) as nat;
    lemma_pow10_add(da, k);
    lemma_pow10_add(db, k);
    assert((28 - a.scale) as nat == da + k);
    assert((28 - b.scale) as nat == db + k);
    let pa = pow10(da);
    let pb = pow10(db);
    let pk = pow10(k);
    assert((a.mantissa * pa + b.mantissa * pb) * pk == a.mantissa * (pa * pk) + b.mantissa * (pb * pk)) by (nonlinear_arith);
}

/// Where a sum is exact, its value is the sum of the values, and its scale is at most the
/// larger of theirs.
pub proof fn lemma_sum_value(a: DecimalValue, b: DecimalValue, s: DecimalValue)
    requires
        a.wf(),
        b.wf(),
        s.wf(),
        a.mantissa == 0 ==> s == b,
        a.mantissa != 0 && b.mantissa == 0 ==> s == a,
        a.mantissa != 0 && b.mantissa != 0 && -mantissa_bound() < aligned_sum(a, b) < mantissa_bound()
            ==> s.mantissa == aligned_sum(a, b) && s.scale == max_scale(a, b),
        sum_is_exact(a, b),
    ensures
        scaled_value(s) == scaled_value(a) + scaled_value(b),
        s.scale <= max_scale(a, b),
{
    if a.mantissa != 0 && b.mantissa != 0 {
        lemma_aligned_scaled(a, b);
    }
}

/// What `Decimal::from_str` gives for a text, when it accepts it.
pub uninterp spec fn decimal_from_str(text: Seq<char>) -> Option<DecimalValue>;

/// What `Decimal::checked_add` gives: `None` where the sum overflows.
pub uninterp spec fn decimal_sum(a: DecimalValue, b: DecimalValue) -> Option<DecimalValue>;

/// What `Decimal / Decimal` gives.
pub uninterp spec fn decimal_quotient(a: DecimalValue, b: DecimalValue) -> DecimalValue;

/// The text of the error that `Decimal::from_str` gives for a text it refuses (the
/// `Display` of `rust_decimal::Error`).
pub uninterp spec fn decimal_parse_error(text: Seq<char>) -> Seq<char>;

/// Calls `Decimal::from_str` (`<Decimal as FromStr>::from_str`), and for a refused text
/// the `Display` of its error. Both depend on the text alone; a decimal that comes back
/// is a valid one.
#[verifier::external_body]
pub(crate) fn parse_decimal(text: &str) -> (r: Result<DecimalValue, String>)
    ensures
        r is Ok <==> decimal_from_str(text@) is Some,
        r matches Ok(v) ==> decimal_from_str(text@) == Some(v) && v.wf(),
        r matches Err(m) ==> m@ == decimal_parse_error(text@),
{
    match <Decimal as std::str::FromStr>::from_str(text) {
        Ok(d) => Ok(DecimalValue { mantissa: d.mantissa(), scale: d.scale(), negative: d.is_sign_negative() }),
        Err(e) => Err(e.to_string()),
    }
}

/// Calls `Decimal::checked_add`, which fails only when the sum does not fit even at
/// scale 0 (where `Decimal + Decimal` panics); it succeeds when the exact sum is at most
/// `2^96 - 1` in magnitude. When one side has a zero mantissa the other side comes back
/// unchanged; when the exact sum of two non-zero sides fits in 96 bits at the larger scale
/// it comes back exactly, at that scale. A sum that does not fit there is rounded to a
/// smaller scale, which this contract leaves to the name.
#[verifier::external_body]
pub(crate) fn checked_add_decimals(a: DecimalValue, b: DecimalValue) -> (r: Option<DecimalValue>)
    requires
        a.wf(),
        b.wf(),
    ensures
        r == decimal_sum(a, b),
        add_in_range(a, b) ==> r is Some,
        r matches Some(s) ==> {
            &&& s.wf()
            &&& a.mantissa == 0 ==> s == b
            &&& a.mantissa != 0 && b.mantissa == 0 ==> s == a
            &&& a.mantissa != 0 && b.mantissa != 0 && -mantissa_bound() < aligned_sum(a, b)
                < mantissa_bound() ==> s.mantissa == aligned_sum(a, b) && s.scale == max_scale(a, b)
        },
{
    let mut x = Decimal::from_i128_with_scale(a.mantissa, a.scale);
    x.set_sign_negative(a.negative);
    let mut y = Decimal::from_i128_with_scale(b.mantissa, b.scale);
    y.set_sign_negative(b.negative);
    let z = x.checked_add(y)?;
    Some(DecimalValue { mantissa: z.mantissa(), scale: z.scale(), negative: z.is_sign_negative() })
}

/// The negation of a decimal; a zero is an unsigned zero.
pub open spec fn negated(a: DecimalValue) -> DecimalValue {
    DecimalValue { mantissa: (-a.mantissa) as i128, scale: a.scale, negative: a.mantissa != 0 && !a.negative }
}

/// Calls `Decimal / Decimal` with a whole divisor of at least 1, where it neither divides
/// by zero nor overflows. A zero dividend gives an unsigned zero at scale 0; otherwise the
/// digits and scale of the quotient come from the magnitudes alone and its sign is that of
/// the dividend (a quotient that rounds to zero is unsigned), so dividing the negated value
/// gives the negated quotient. The rounding of the digits is left to the name.
#[verifier::external_body]
pub(crate) fn divide_decimals(a: DecimalValue, b: DecimalValue) -> (r: DecimalValue)
    requires
        a.wf(),
        b.wf(),
        b.scale == 0,
        b.mantissa >= 1,
    ensures
        r == decimal_quotient(a, b),
        r.wf(),
        a.mantissa == 0 ==> r.mantissa == 0 && r.scale == 0 && !r.negative,
        r.mantissa == 0 ==> !r.negative,
        r.mantissa != 0 ==> (r.negative <==> a.negative),
        decimal_quotient(negated(a), b) == negated(r),
{
    let mut x = Decimal::from_i128_with_scale(a.mantissa, a.scale);
    x.set_sign_negative(a.negative);
    let y = Decimal::from_i128_with_scale(b.mantissa, b.scale);
    let z = x / y;
    DecimalValue { mantissa: z.mantissa(), scale: z.scale(), negative: z.is_sign_negative() }
}

/// Calls `<Decimal as PartialOrd>::lt`, which compares the numbers (a zero is equal to a
/// zero whatever its sign and scale).
#[verifier::external_body]
pub(crate) fn less_than(a: DecimalValue, b: DecimalValue) -> (r: bool)
    requires
        a.wf(),
        b.wf(),
    ensures
        r == decimal_lt(a, b),
{
    let mut x = Decimal::from_i128_with_scale(a.mantissa, a.scale);
    x.set_sign_negative(a.negative);
    let mut y = Decimal::from_i128_with_scale(b.mantissa, b.scale);
    y.set_sign_negative(b.negative);
    x < y
}

/// Calls `Decimal::from(usize)`: the whole number `n` at scale 0.
#[verifier::external_body]
pub(crate) fn decimal_from_count(n: usize) -> (r: DecimalValue)
    ensures
        r.wf(),
        r.mantissa == n,
        r.scale == 0,
        !r.negative,
{
    let d = Decimal::from(n);
    DecimalValue { mantissa: d.mantissa(), scale: d.scale(), negative: d.is_sign_negative() }
}

/// Calls `Decimal::to_string` (its `Display`).
#[verifier::external_body]
pub(crate) fn decimal_to_string(a: DecimalValue) -> (r: String)
    requires
        a.wf(),
    ensures
        r@ == decimal_text(a),
{
    let mut x = Decimal::from_i128_with_scale(a.mantissa, a.scale);
    x.set_sign_negative(a.negative);
    x.to_string()
}

} // verus!
