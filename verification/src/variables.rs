//! Variables that aggregate a value over the rows of a report.
use vstd::prelude::*;
use vstd::string::*;
use crate::decimal::{
    add_in_range, aligned_sum, lemma_text_sign, negated, checked_add_decimals, decimal_from_count, decimal_from_str, decimal_parse_error, decimal_lt, decimal_quotient,
    decimal_sum, decimal_text, decimal_to_string, divide_decimals, lemma_aligned_scaled, lemma_pow10_mono,
    lemma_sum_value, less_than, mantissa_bound, max_scale, parse_decimal, pow10, scaled_value, sum_is_exact,
    DecimalValue,
};
use crate::text::{join, same_text};

verus! {

/// Errors of variable aggregation.
#[derive(Debug)]
pub enum VariableError {
    DecimalError(String),
    Other(String),
}

impl VariableError {
    /// The text of this error.
    pub fn message(&self) -> (r: String)
        ensures
            match self {
                VariableError::DecimalError(s) => r@ == "Invalid decimal value: "@ + s@,
                VariableError::Other(s) => r@ == "Variable error: "@ + s@,
            },
    {
        match self {
            VariableError::DecimalError(s) => join("Invalid decimal value: ", s.as_str()),
            VariableError::Other(s) => join("Variable error: ", s.as_str()),
        }
    }
}

/// How a variable aggregates its values.
#[derive(Debug, Clone, Copy, PartialEq, Eq, Structural)]
pub enum CalculationType {
    Sum,
    Count,
    Average,
    Min,
    Max,
    First,
}

/// The calculation written as `s`, if any.
pub open spec fn calculation_of(s: Seq<char>) -> Option<CalculationType> {
    if s == "Sum"@ {
        Some(CalculationType::Sum)
    } else if s == "Count"@ {
        Some(CalculationType::Count)
    } else if s == "Average"@ {
        Some(CalculationType::Average)
    } else if s == "Min"@ {
        Some(CalculationType::Min)
    } else if s == "Max"@ {
        Some(CalculationType::Max)
    } else if s == "First"@ {
        Some(CalculationType::First)
    } else {
        None
    }
}

impl CalculationType {
    /// The calculation named `s`; any other name is an error that says so.
    pub fn parse(s: &str) -> (r: Result<CalculationType, VariableError>)
        ensures
            match calculation_of(s@) {
                Some(k) => r == Ok::<CalculationType, VariableError>(k),
                None => r matches Err(VariableError::Other(m))
                    && m@ == "Unknown calculation type: "@ + s@,
            },
    {
        if same_text(s, "Sum") {
            Ok(CalculationType::Sum)
        } else if same_text(s, "Count") {
            Ok(CalculationType::Count)
        } else if same_text(s, "Average") {
            Ok(CalculationType::Average)
        } else if same_text(s, "Min") {
            Ok(CalculationType::Min)
        } else if same_text(s, "Max") {
            Ok(CalculationType::Max)
        } else if same_text(s, "First") {
            Ok(CalculationType::First)
        } else {
            Err(VariableError::Other(join("Unknown calculation type: ", s)))
        }
    }
}

impl std::str::FromStr for CalculationType {
    type Err = VariableError;

    fn from_str(s: &str) -> (r: Result<CalculationType, VariableError>)
        ensures
            match calculation_of(s@) {
                Some(k) => r == Ok::<CalculationType, VariableError>(k),
                None => r matches Err(VariableError::Other(m))
                    && m@ == "Unknown calculation type: "@ + s@,
            },
    {
        CalculationType::parse(s)
    }
}

/// The state of a variable: its name, calculation, current value and number of updates.
pub struct CalcView {
    pub name: Seq<char>,
    pub kind: CalculationType,
    pub value: DecimalValue,
    pub count: nat,
}

/// The state of a fresh (or reset) variable.
pub open spec fn fresh_calc(name: Seq<char>, kind: CalculationType) -> CalcView {
    CalcView { name, kind, value: DecimalValue { mantissa: 0, scale: 0, negative: false }, count: 0 }
}

/// An update with `v` neither overflows the sum nor the count.
pub open spec fn update_in_range(c: CalcView, v: DecimalValue) -> bool {
    &&& c.count < usize::MAX
    &&& (c.kind == CalculationType::Sum || c.kind == CalculationType::Average) ==> decimal_sum(c.value, v) is Some
}

/// The state after an update with the value `v`.
pub open spec fn apply_update(c: CalcView, v: DecimalValue) -> CalcView {
    let value = match c.kind {
        CalculationType::Sum => decimal_sum(c.value, v).unwrap(),
        CalculationType::Average => decimal_sum(c.value, v).unwrap(),
        CalculationType::Count => DecimalValue { mantissa: (c.count + 1) as i128, scale: 0, negative: false },
        CalculationType::Min => if c.count == 0 || decimal_lt(v, c.value) { v } else { c.value },
        CalculationType::Max => if c.count == 0 || decimal_lt(c.value, v) { v } else { c.value },
        CalculationType::First => if c.count == 0 { v } else { c.value },
    };
    CalcView { value, count: c.count + 1, ..c }
}

/// What an update with `v` does to a sum, where it is exact: the value grows by exactly `v`,
/// and its scale stays within the larger of the two.
pub open spec fn sum_step(before: CalcView, v: DecimalValue, after: CalcView) -> bool {
    sum_is_exact(before.value, v) ==> scaled_value(after.value) == scaled_value(before.value) + scaled_value(v)
        && after.value.scale <= max_scale(before.value, v)
}

/// The state after updates with each of `vals`, in order.
pub open spec fn updated_with(c: CalcView, vals: Seq<DecimalValue>) -> CalcView
    decreases vals.len(),
{
    if vals.len() == 0 {
        c
    } else {
        updated_with(apply_update(c, vals[0]), vals.drop_first())
    }
}

/// What a call of `update` with the text `text` does to a variable in state `before`: with
/// a decimal it takes the update (exactly, for a sum, where the sum is exact); with any
/// other text it stays as it was.
pub open spec fn update_step(before: CalcView, text: Seq<char>, after: CalcView) -> bool {
    match decimal_from_str(text) {
        Some(v) => {
            &&& after == apply_update(before, v)
            &&& after.value.wf()
            &&& v.wf()
            &&& (before.kind == CalculationType::Sum || before.kind == CalculationType::Average)
                ==> sum_step(before, v, after)
        },
        None => after == before,
    }
}

/// The values of those of `texts` that are decimals, in order.
pub open spec fn parsed_values(texts: Seq<Seq<char>>) -> Seq<DecimalValue>
    decreases texts.len(),
{
    if texts.len() == 0 {
        Seq::empty()
    } else {
        match decimal_from_str(texts.last()) {
            Some(v) => parsed_values(texts.drop_last()).push(v),
            None => parsed_values(texts.drop_last()),
        }
    }
}

/// A run of calls of `update`: each state follows from the one before by an update with
/// the next of `texts`.
pub open spec fn is_run(states: Seq<CalcView>, texts: Seq<Seq<char>>) -> bool {
    &&& states.len() == texts.len() + 1
    &&& forall|i: int| 0 <= i < texts.len() ==> update_step(#[trigger] states[i], texts[i], states[i + 1])
}

/// The sum of the values of `vals`, times `10^28`.
pub open spec fn scaled_total(vals: Seq<DecimalValue>) -> int
    decreases vals.len(),
{
    if vals.len() == 0 {
        0
    } else {
        scaled_total(vals.drop_last()) + scaled_value(vals.last())
    }
}

/// The text that a variable in state `c` shows: for an average the quotient of the sum
/// by the count (`0` before any update), for the others the value itself.
pub open spec fn calc_text(c: CalcView) -> Seq<char> {
    match c.kind {
        CalculationType::Average => if c.count > 0 {
            decimal_text(decimal_quotient(c.value, DecimalValue { mantissa: c.count as i128, scale: 0, negative: false }))
        } else {
            "0"@
        },
        _ => decimal_text(c.value),
    }
}

/// Variable aggregation calculator
#[derive(Debug)]
pub struct VariableCalculator {
    name: String,
    calculation_type: CalculationType,
    value: DecimalValue,
    count: usize,
}

impl View for VariableCalculator {
    type V = CalcView;

    closed spec fn view(&self) -> CalcView {
        CalcView {
            name: self.name@,
            kind: self.calculation_type,
            value: self.value,
            count: self.count as nat,
        }
    }
}

impl Clone for VariableCalculator {
    fn clone(&self) -> (r: Self)
        ensures
            r@ == self@,
    {
        self.duplicate()
    }
}

impl VariableCalculator {
    #[verifier::type_invariant]
    closed spec fn inv(self) -> bool {
        self.value.wf()
    }

    pub fn new(name: String, calculation_type: CalculationType) -> (r: Self)
        ensures
            r@ == fresh_calc(name@, calculation_type),
    {
        VariableCalculator { name, calculation_type, value: DecimalValue::zero(), count: 0 }
    }

    /// The variable, duplicated.
    pub fn duplicate(&self) -> (r: Self)
        ensures
            r@ == self@,
    {
        proof {
            use_type_invariant(self);
        }
        VariableCalculator {
            name: self.name.clone(),
            calculation_type: self.calculation_type,
            value: self.value,
            count: self.count,
        }
    }

    /// The name of the variable.
    pub fn name(&self) -> (r: &str)
        ensures
            r@ == self@.name,
    {
        self.name.as_str()
    }

    /// Whether an update with `v` stays in range.
    fn accepts(&self, v: DecimalValue) -> (r: bool)
        requires
            v.wf(),
        ensures
            r == update_in_range(self@, v),
            self@.count < usize::MAX && ((self@.kind == CalculationType::Sum || self@.kind == CalculationType::Average)
                ==> add_in_range(self@.value, v)) ==> r,
    {
        proof {
            use_type_invariant(self);
        }
        if self.count == usize::MAX {
            return false;
        }
        match self.calculation_type {
            CalculationType::Sum | CalculationType::Average => checked_add_decimals(self.value, v).is_some(),
            _ => true,
        }
    }

    /// The current value plus `v`, where that sum does not overflow.
    fn sum_with(&self, v: DecimalValue) -> (r: DecimalValue)
        requires
            v.wf(),
            decimal_sum(self@.value, v) is Some,
        ensures
            r == decimal_sum(self@.value, v).unwrap(),
            r.wf(),
            sum_is_exact(self@.value, v) ==> scaled_value(r) == scaled_value(self@.value) + scaled_value(v)
                && r.scale <= max_scale(self@.value, v),
    {
        proof {
            use_type_invariant(self);
        }
        match checked_add_decimals(self.value, v) {
            Some(s) => {
                proof {
                    if sum_is_exact(self@.value, v) {
                        lemma_sum_value(self.value, v, s);
                    }
                }
                s
            },
            None => {
                proof {
                    assert(false);
                }
                v
            },
        }
    }

    /// Update the variable with the decimal written in `value_str`.
    pub fn update(&mut self, value_str: &str) -> (r: Result<(), VariableError>)
        requires
            decimal_from_str(value_str@) matches Some(v) ==> update_in_range(old(self)@, v),
        ensures
            update_step(old(self)@, value_str@, final(self)@),
            match decimal_from_str(value_str@) {
                Some(v) => {
                    &&& r is Ok
                    &&& final(self)@ == apply_update(old(self)@, v)
                    &&& final(self)@.value.wf()
                    &&& v.wf()
                    &&& (old(self)@.kind == CalculationType::Sum || old(self)@.kind == CalculationType::Average)
                        ==> sum_step(old(self)@, v, final(self)@)
                },
                None => final(self)@ == old(self)@ && (r matches Err(VariableError::DecimalError(m))
                    && m@ == value_str@ + ": "@ + decimal_parse_error(value_str@)),
            },
    {
        proof {
            use_type_invariant(&*self);
        }
        let value = match parse_decimal(value_str) {
            Ok(v) => v,
            Err(detail) => {
                let text = join(value_str, ": ");
                let m = join(text.as_str(), detail.as_str());
                return Err(VariableError::DecimalError(m));
            },
        };
        match self.calculation_type {
            CalculationType::Sum => {
                self.value = self.sum_with(value);
            },
            CalculationType::Count => {
                self.value = decimal_from_count(self.count + 1);
            },
            CalculationType::Average => {
                self.value = self.sum_with(value);
            },
            CalculationType::Min => {
                if self.count == 0 || less_than(value, self.value) {
                    self.value = value;
                }
            },
            CalculationType::Max => {
                if self.count == 0 || less_than(self.value, value) {
                    self.value = value;
                }
            },
            CalculationType::First => {
                if self.count == 0 {
                    self.value = value;
                }
            },
        }
        self.count = self.count + 1;
        Ok(())
    }

    /// Update the variable as [`Self::update`] does, where that neither overflows the sum
    /// nor the count; otherwise leave it unchanged and return `None`.
    pub fn try_update(&mut self, value_str: &str) -> (r: Option<Result<(), VariableError>>)
        ensures
            r is Some ==> update_step(old(self)@, value_str@, final(self)@),
            decimal_from_str(value_str@) matches Some(v) && old(self)@.count < usize::MAX
                && ((old(self)@.kind == CalculationType::Sum || old(self)@.kind == CalculationType::Average)
                ==> add_in_range(old(self)@.value, v)) ==> r matches Some(Ok(_)),
            match decimal_from_str(value_str@) {
                Some(v) => if update_in_range(old(self)@, v) {
                    &&& r matches Some(Ok(()))
                    &&& final(self)@ == apply_update(old(self)@, v)
                    &&& final(self)@.value.wf()
                    &&& (old(self)@.kind == CalculationType::Sum || old(self)@.kind == CalculationType::Average)
                        ==> sum_step(old(self)@, v, final(self)@)
                } else {
                    r is None && final(self)@ == old(self)@
                },
                None => final(self)@ == old(self)@ && (r matches Some(Err(VariableError::DecimalError(m)))
                    && m@ == value_str@ + ": "@ + decimal_parse_error(value_str@)),
            },
    {
        if let Ok(v) = parse_decimal(value_str) {
            if !self.accepts(v) {
                return None;
            }
        }
        Some(self.update(value_str))
    }

    /// Get the current calculated value. An average shows the quotient of its total by its
    /// count (`0` before any update): with the total's sign (unless the quotient is zero),
    /// and the negated total gives the negated average.
    pub fn get_value(&self) -> (r: String)
        ensures
            r@ == calc_text(self@),
            self@.kind == CalculationType::Average && self@.count > 0 ==> ({
                let n = DecimalValue { mantissa: self@.count as i128, scale: 0, negative: false };
                let q = decimal_quotient(self@.value, n);
                &&& r@ == decimal_text(q)
                &&& r@.len() > 0
                &&& q.mantissa != 0 ==> (r@[0] == '-' <==> self@.value.mantissa < 0)
                &&& self@.value.mantissa == 0 ==> r@ == seq!['0']
                &&& decimal_quotient(negated(self@.value), n) == negated(q)
            }),
            self@.kind == CalculationType::Average && self@.count == 0 ==> r@ == seq!['0'],
            self@.kind != CalculationType::Average ==> r@ == decimal_text(self@.value),
    {
        proof {
            use_type_invariant(self);
        }
        match self.calculation_type {
            CalculationType::Average => {
                if self.count > 0 {
                    let avg = divide_decimals(self.value, decimal_from_count(self.count));
                    proof {
                        lemma_text_sign(avg);
                        if self.value.mantissa == 0 {
                            assert(decimal_text(avg) =~= seq!['0']);
                        }
                    }
                    decimal_to_string(avg)
                } else {
                    let r = String::from_str("0");
                    proof {
                        reveal_strlit("0");
                    }
                    r
                }
            },
            _ => decimal_to_string(self.value),
        }
    }

    /// Reset the variable
    pub fn reset(&mut self)
        ensures
            final(self)@ == fresh_calc(old(self)@.name, old(self)@.kind),
    {
        self.value = DecimalValue::zero();
        self.count = 0;
    }
}

/// A sum is exact: where the values have at most `s` decimals and no partial sum needs more
/// than 96 bits at `s` decimals, a variable that starts from zero and takes, update after
/// update, each of `vals` as a sum does, holds their exact total.
pub proof fn law_sum_is_exact(states: Seq<CalcView>, vals: Seq<DecimalValue>, s: nat)
    requires
        states.len() == vals.len() + 1,
        states[0].value.mantissa == 0,
        states[0].value.scale == 0,
        s <= 28,
        forall|i: int| 0 <= i < vals.len() ==> (#[trigger] vals[i]).wf() && vals[i].scale <= s,
        forall|i: int| 0 < i < states.len() ==> (#[trigger] states[i]).value.wf(),
        forall|i: int| 0 <= i < vals.len() ==> sum_step(#[trigger] states[i], vals[i], states[i + 1]),
        forall|k: int| 0 <= k <= vals.len() ==> -mantissa_bound() * pow10((28 - s) as nat)
            < #[trigger] scaled_total(vals.take(k)) < mantissa_bound() * pow10((28 - s) as nat),
    ensures
        scaled_value(states.last().value) == scaled_total(vals),
{
    lemma_sum_prefix(states, vals, s, vals.len() as int);
    assert(vals.take(vals.len() as int) =~= vals);
}

/// The law of exact sums, for the first `k` values.
proof fn lemma_sum_prefix(states: Seq<CalcView>, vals: Seq<DecimalValue>, s: nat, k: int)
    requires
        0 <= k <= vals.len(),
        states.len() == vals.len() + 1,
        states[0].value.mantissa == 0,
        states[0].value.scale == 0,
        s <= 28,
        forall|i: int| 0 <= i < vals.len() ==> (#[trigger] vals[i]).wf() && vals[i].scale <= s,
        forall|i: int| 0 < i < states.len() ==> (#[trigger] states[i]).value.wf(),
        forall|i: int| 0 <= i < vals.len() ==> sum_step(#[trigger] states[i], vals[i], states[i + 1]),
        forall|k: int| 0 <= k <= vals.len() ==> -mantissa_bound() * pow10((28 - s) as nat)
            < #[trigger] scaled_total(vals.take(k)) < mantissa_bound() * pow10((28 - s) as nat),
    ensures
        scaled_value(states[k].value) == scaled_total(vals.take(k)),
        states[k].value.scale <= s,
        states[k].value.wf(),
    decreases k,
{
    if k == 0 {
        assert(vals.take(0) =~= Seq::<DecimalValue>::empty());
    } else {
        let j = k - 1;
        lemma_sum_prefix(states, vals, s, j);
        let a = states[j].value;
        let b = vals[j];
        assert(vals.take(j + 1).drop_last() =~= vals.take(j));
        assert(scaled_total(vals.take(j + 1)) == scaled_value(a) + scaled_value(b));
        lemma_exact_add(a, b, s);
        assert(sum_step(states[j], vals[j], states[j + 1]));
    }
}

/// Two decimals of at most `s` decimals whose total, times `10^28`, is within 96 bits at
/// `s` decimals add exactly.
proof fn lemma_exact_add(a: DecimalValue, b: DecimalValue, s: nat)
    requires
        a.wf(),
        b.wf(),
        a.scale <= s,
        b.scale <= s,
        s <= 28,
        -mantissa_bound() * pow10((28 - s) as nat) < scaled_value(a) + scaled_value(b)
            < mantissa_bound() * pow10((28 - s) as nat),
    ensures
        sum_is_exact(a, b),
{
    if a.mantissa != 0 && b.mantissa != 0 {
        lemma_aligned_scaled(a, b);
        let m = max_scale(a, b);
        lemma_pow10_mono((28 - s) as nat, (28 - m) as nat);
        let p = pow10((28 - m) as nat);
        let q = pow10((28 - s) as nat);
        let x = aligned_sum(a, b);
        let t = scaled_value(a) + scaled_value(b);
        assert(x * p == t);
        assert(-mantissa_bound() < x < mantissa_bound()) by (nonlinear_arith)
            requires
                x * p == t,
                -mantissa_bound() * q < t < mantissa_bound() * q,
                0 < q <= p,
                mantissa_bound() > 0,
        {
        }
    }
}

/// Updating with one more value at the end is one more update of the result.
proof fn lemma_updated_with_push(c: CalcView, vals: Seq<DecimalValue>, v: DecimalValue)
    ensures
        updated_with(c, vals.push(v)) == apply_update(updated_with(c, vals), v),
    decreases vals.len(),
{
    if vals.len() == 0 {
        assert(vals.push(v).drop_first() =~= Seq::<DecimalValue>::empty());
        assert(vals.push(v)[0] == v);
        assert(updated_with(apply_update(c, v), Seq::<DecimalValue>::empty()) == apply_update(c, v));
        assert(updated_with(c, vals) == c);
    } else {
        assert(vals.push(v).drop_first() =~= vals.drop_first().push(v));
        assert(vals.push(v)[0] == vals[0]);
        lemma_updated_with_push(apply_update(c, vals[0]), vals.drop_first(), v);
    }
}

/// The first `k` calls of a run.
proof fn lemma_run_prefix(states: Seq<CalcView>, texts: Seq<Seq<char>>, k: int)
    requires
        is_run(states, texts),
        0 <= k <= texts.len(),
    ensures
        states[k] == updated_with(states[0], parsed_values(texts.take(k))),
        states[k].kind == states[0].kind,
    decreases k,
{
    if k == 0 {
        assert(parsed_values(texts.take(0)) =~= Seq::<DecimalValue>::empty());
    } else {
        lemma_run_prefix(states, texts, k - 1);
        assert(texts.take(k).drop_last() =~= texts.take(k - 1));
        assert(texts.take(k).last() == texts[k - 1]);
        assert(update_step(states[k - 1], texts[k - 1], states[k]));
        if let Some(v) = decimal_from_str(texts[k - 1]) {
            lemma_updated_with_push(states[0], parsed_values(texts.take(k - 1)), v);
        }
    }
}

/// A run of updates is the update with the values that were decimals: texts that are no
/// decimal change nothing, and the others are taken in order.
pub proof fn law_run_takes_the_decimals(states: Seq<CalcView>, texts: Seq<Seq<char>>)
    requires
        is_run(states, texts),
    ensures
        states.last() == updated_with(states[0], parsed_values(texts)),
{
    lemma_run_prefix(states, texts, texts.len() as int);
    assert(texts.take(texts.len() as int) =~= texts);
}

/// A count counts the successful updates: a counting variable that starts fresh and goes
/// through a run of updates holds the number of texts that were decimals.
pub proof fn law_run_counts_decimals(name: Seq<char>, states: Seq<CalcView>, texts: Seq<Seq<char>>)
    requires
        is_run(states, texts),
        states[0] == fresh_calc(name, CalculationType::Count),
    ensures
        states.last().count == parsed_values(texts).len(),
        parsed_values(texts).len() > 0 ==> states.last().value
            == (DecimalValue { mantissa: parsed_values(texts).len() as i128, scale: 0, negative: false }),
        parsed_values(texts).len() == 0 ==> states.last() == states[0],
{
    law_run_takes_the_decimals(states, texts);
    law_count_counts(name, parsed_values(texts));
}

/// A sum over a run of updates is exact: where the decimals have at most `s` decimals and
/// no partial total needs more than 96 bits at `s` decimals, a summing (or averaging)
/// variable that starts from zero and goes through a run of updates holds the exact total of
/// the texts that were decimals (those that were not change nothing), and counts them; an
/// average shows that total divided by that count.
pub proof fn law_run_sums_decimals(states: Seq<CalcView>, texts: Seq<Seq<char>>, s: nat)
    requires
        is_run(states, texts),
        states[0].kind == CalculationType::Sum || states[0].kind == CalculationType::Average,
        states[0].count == 0,
        states[0].value.mantissa == 0,
        states[0].value.scale == 0,
        s <= 28,
        forall|i: int| 0 <= i < texts.len() ==> (decimal_from_str(#[trigger] texts[i]) matches Some(v) ==> v.scale <= s),
        forall|k: int| 0 <= k <= texts.len() ==> -mantissa_bound() * pow10((28 - s) as nat)
            < #[trigger] scaled_total(parsed_values(texts.take(k))) < mantissa_bound() * pow10((28 - s) as nat),
    ensures
        scaled_value(states.last().value) == scaled_total(parsed_values(texts)),
        states.last().count == parsed_values(texts).len(),
        scaled_total(parsed_values(texts)) < 0 <==> states.last().value.mantissa < 0,
        scaled_total(parsed_values(texts)) == 0 <==> states.last().value.mantissa == 0,
{
    lemma_run_sum_prefix(states, texts, s, texts.len() as int);
    let v = states.last().value;
    lemma_pow10_mono(0, (28 - v.scale) as nat);
    let p = pow10((28 - v.scale) as nat);
    assert(v.mantissa < 0 <==> v.mantissa * p < 0) by (nonlinear_arith)
        requires
            p > 0,
    {
    }
    assert(v.mantissa == 0 <==> v.mantissa * p == 0) by (nonlinear_arith)
        requires
            p > 0,
    {
    }
    assert(texts.take(texts.len() as int) =~= texts);
    law_run_takes_the_decimals(states, texts);
    lemma_updated_count(states[0], parsed_values(texts));
}

/// Each update counts one.
proof fn lemma_updated_count(c: CalcView, vals: Seq<DecimalValue>)
    ensures
        updated_with(c, vals).count == c.count + vals.len(),
    decreases vals.len(),
{
    if vals.len() > 0 {
        lemma_updated_count(apply_update(c, vals[0]), vals.drop_first());
    }
}

/// The law of exact sums over a run, for the first `k` calls.
proof fn lemma_run_sum_prefix(states: Seq<CalcView>, texts: Seq<Seq<char>>, s: nat, k: int)
    requires
        is_run(states, texts),
        0 <= k <= texts.len(),
        states[0].kind == CalculationType::Sum || states[0].kind == CalculationType::Average,
        states[0].value.mantissa == 0,
        states[0].value.scale == 0,
        s <= 28,
        forall|i: int| 0 <= i < texts.len() ==> (decimal_from_str(#[trigger] texts[i]) matches Some(v) ==> v.scale <= s),
        forall|k: int| 0 <= k <= texts.len() ==> -mantissa_bound() * pow10((28 - s) as nat)
            < #[trigger] scaled_total(parsed_values(texts.take(k))) < mantissa_bound() * pow10((28 - s) as nat),
    ensures
        scaled_value(states[k].value) == scaled_total(parsed_values(texts.take(k))),
        states[k].value.scale <= s,
        states[k].kind == states[0].kind,
        k == 0 || states[k].value.wf(),
    decreases k,
{
    if k == 0 {
        assert(parsed_values(texts.take(0)) =~= Seq::<DecimalValue>::empty());
    } else {
        let j = k - 1;
        lemma_run_sum_prefix(states, texts, s, j);
        assert(texts.take(k).drop_last() =~= texts.take(j));
        assert(texts.take(k).last() == texts[j]);
        assert(update_step(states[j], texts[j], states[k]));
        let before = parsed_values(texts.take(j));
        match decimal_from_str(texts[j]) {
            Some(v) => {
                let a = states[j].value;
                assert(parsed_values(texts.take(k)) == before.push(v));
                assert(before.push(v).drop_last() =~= before);
                assert(scaled_total(before.push(v)) == scaled_value(a) + scaled_value(v));
                if j == 0 {
                    assert(a.wf());
                }
                lemma_exact_add(a, v, s);
                assert(sum_step(states[j], v, states[k]));
                assert(max_scale(a, v) <= s);
            },
            None => {},
        }
    }
}

/// A count counts: a variable counting from its fresh state, updated with `n` values,
/// holds `n`.
pub proof fn law_count_counts(name: Seq<char>, vals: Seq<DecimalValue>)
    ensures
        updated_with(fresh_calc(name, CalculationType::Count), vals).count == vals.len(),
        vals.len() > 0 ==> updated_with(fresh_calc(name, CalculationType::Count), vals).value
            == (DecimalValue { mantissa: vals.len() as i128, scale: 0, negative: false }),
{
    lemma_count_from(fresh_calc(name, CalculationType::Count), vals);
}

proof fn lemma_count_from(c: CalcView, vals: Seq<DecimalValue>)
    requires
        c.kind == CalculationType::Count,
    ensures
        updated_with(c, vals).count == c.count + vals.len(),
        updated_with(c, vals).kind == CalculationType::Count,
        vals.len() > 0 ==> updated_with(c, vals).value
            == (DecimalValue { mantissa: (c.count + vals.len()) as i128, scale: 0, negative: false }),
        vals.len() == 0 ==> updated_with(c, vals).value == c.value,
    decreases vals.len(),
{
    if vals.len() > 0 {
        lemma_count_from(apply_update(c, vals[0]), vals.drop_first());
    }
}

/// `a < b` and `b <= c` as numbers give `a < c`.
proof fn lemma_lt_le(a: DecimalValue, b: DecimalValue, c: DecimalValue)
    requires
        decimal_lt(a, b),
        !decimal_lt(c, b),
    ensures
        decimal_lt(a, c),
{
    lemma_pow10_mono(0, a.scale as nat);
    lemma_pow10_mono(0, b.scale as nat);
    lemma_pow10_mono(0, c.scale as nat);
    let pa = pow10(a.scale as nat);
    let pb = pow10(b.scale as nat);
    let pc = pow10(c.scale as nat);
    assert(a.mantissa * pc < c.mantissa * pa) by (nonlinear_arith)
        requires
            a.mantissa * pb < b.mantissa * pa,
            c.mantissa * pb >= b.mantissa * pc,
            pa > 0,
            pb > 0,
            pc > 0,
    {
        assert(a.mantissa * pb * pc < b.mantissa * pa * pc);
        assert(c.mantissa * pb * pa >= b.mantissa * pc * pa);
    }
}

/// `a <= b` and `b < c` as numbers give `a < c`.
proof fn lemma_le_lt(a: DecimalValue, b: DecimalValue, c: DecimalValue)
    requires
        !decimal_lt(b, a),
        decimal_lt(b, c),
    ensures
        decimal_lt(a, c),
{
    lemma_pow10_mono(0, a.scale as nat);
    lemma_pow10_mono(0, b.scale as nat);
    lemma_pow10_mono(0, c.scale as nat);
    let pa = pow10(a.scale as nat);
    let pb = pow10(b.scale as nat);
    let pc = pow10(c.scale as nat);
    assert(a.mantissa * pc < c.mantissa * pa) by (nonlinear_arith)
        requires
            a.mantissa * pb <= b.mantissa * pa,
            b.mantissa * pc < c.mantissa * pb,
            pa > 0,
            pb > 0,
            pc > 0,
    {
        assert(a.mantissa * pb * pc <= b.mantissa * pa * pc);
        assert(b.mantissa * pc * pa < c.mantissa * pb * pa);
    }
}

/// `v` is `vals[j]`, and for a minimum (`least`) it is less than each value before it, for a
/// maximum greater: among values equal to the extreme, the first one.
pub open spec fn first_extreme(vals: Seq<DecimalValue>, j: int, v: DecimalValue, least: bool) -> bool {
    &&& 0 <= j < vals.len()
    &&& v == vals[j]
    &&& forall|i: int| 0 <= i < j ==> if least { decimal_lt(v, #[trigger] vals[i]) } else { decimal_lt(#[trigger] vals[i], v) }
}

/// A minimum is the least value: a variable taking the minimum from its fresh state,
/// updated with `vals` (at least one), holds one of them, none of them is less, and it is the
/// first of those that are equal to it (each value before it is greater).
pub proof fn law_min_is_least(name: Seq<char>, vals: Seq<DecimalValue>)
    requires
        vals.len() > 0,
    ensures
        exists|j: int| 0 <= j < vals.len() && updated_with(fresh_calc(name, CalculationType::Min), vals).value == vals[j],
        exists|j: int| #[trigger] first_extreme(vals, j, updated_with(fresh_calc(name, CalculationType::Min), vals).value, true),
        forall|i: int| 0 <= i < vals.len() ==> !decimal_lt(#[trigger] vals[i], updated_with(fresh_calc(name, CalculationType::Min), vals).value),
{
    let c1 = apply_update(fresh_calc(name, CalculationType::Min), vals[0]);
    lemma_pow10_mono(0, vals[0].scale as nat);
    assert(!decimal_lt(vals[0], vals[0])) by (nonlinear_arith)
        requires
            pow10(vals[0].scale as nat) > 0,
    {
    }
    assert(first_extreme(vals, 0, c1.value, true));
    lemma_extreme_from(c1, vals, 1, true);
}

/// A maximum is the greatest value: a variable taking the maximum from its fresh state,
/// updated with `vals` (at least one), holds one of them, none of them is greater, and it is
/// the first of those that are equal to it (each value before it is less).
pub proof fn law_max_is_greatest(name: Seq<char>, vals: Seq<DecimalValue>)
    requires
        vals.len() > 0,
    ensures
        exists|j: int| 0 <= j < vals.len() && updated_with(fresh_calc(name, CalculationType::Max), vals).value == vals[j],
        exists|j: int| #[trigger] first_extreme(vals, j, updated_with(fresh_calc(name, CalculationType::Max), vals).value, false),
        forall|i: int| 0 <= i < vals.len() ==> !decimal_lt(updated_with(fresh_calc(name, CalculationType::Max), vals).value, #[trigger] vals[i]),
{
    let c1 = apply_update(fresh_calc(name, CalculationType::Max), vals[0]);
    lemma_pow10_mono(0, vals[0].scale as nat);
    assert(!decimal_lt(vals[0], vals[0])) by (nonlinear_arith)
        requires
            pow10(vals[0].scale as nat) > 0,
    {
    }
    assert(first_extreme(vals, 0, c1.value, false));
    lemma_extreme_from(c1, vals, 1, false);
}

/// The extreme that a minimum (`least`) or maximum variable holds after the first `k` values.
proof fn lemma_extreme_from(c: CalcView, vals: Seq<DecimalValue>, k: int, least: bool)
    requires
        0 < k <= vals.len(),
        c.count > 0,
        c.kind == (if least { CalculationType::Min } else { CalculationType::Max }),
        exists|j: int| j < k && #[trigger] first_extreme(vals, j, c.value, least),
        forall|i: int| 0 <= i < k ==> if least { !decimal_lt(#[trigger] vals[i], c.value) } else { !decimal_lt(c.value, #[trigger] vals[i]) },
    ensures
        exists|j: int| 0 <= j < vals.len() && updated_with(c, vals.skip(k)).value == vals[j],
        exists|j: int| #[trigger] first_extreme(vals, j, updated_with(c, vals.skip(k)).value, least),
        forall|i: int| 0 <= i < vals.len() ==> if least {
            !decimal_lt(#[trigger] vals[i], updated_with(c, vals.skip(k)).value)
        } else {
            !decimal_lt(updated_with(c, vals.skip(k)).value, #[trigger] vals[i])
        },
    decreases vals.len() - k,
{
    if k < vals.len() {
        let v = vals[k];
        let c2 = apply_update(c, v);
        assert(vals.skip(k).drop_first() =~= vals.skip(k + 1));
        assert(vals.skip(k)[0] == v);
        assert(updated_with(c, vals.skip(k)) == updated_with(c2, vals.skip(k + 1)));
        assert forall|i: int| 0 <= i < k + 1 implies if least { !decimal_lt(#[trigger] vals[i], c2.value) } else { !decimal_lt(c2.value, #[trigger] vals[i]) } by {
            if least {
                if decimal_lt(v, c.value) {
                    if i < k {
                        if decimal_lt(vals[i], v) {
                            lemma_lt_le(vals[i], v, c.value);
                        }
                    } else {
                        lemma_pow10_mono(0, v.scale as nat);
                        assert(!decimal_lt(v, v)) by (nonlinear_arith)
                            requires
                                pow10(v.scale as nat) > 0,
                        {
                        }
                    }
                }
            } else {
                if decimal_lt(c.value, v) {
                    if i < k {
                        if decimal_lt(v, vals[i]) {
                            lemma_lt_le(c.value, v, vals[i]);
                        }
                    } else {
                        lemma_pow10_mono(0, v.scale as nat);
                        assert(!decimal_lt(v, v)) by (nonlinear_arith)
                            requires
                                pow10(v.scale as nat) > 0,
                        {
                        }
                    }
                }
            }
        }
        let j0 = choose|j: int| j < k && #[trigger] first_extreme(vals, j, c.value, least);
        if c2.value == c.value {
            assert(first_extreme(vals, j0, c2.value, least));
        } else {
            assert forall|i: int| 0 <= i < k implies if least { decimal_lt(v, #[trigger] vals[i]) } else { decimal_lt(#[trigger] vals[i], v) } by {
                if least {
                    lemma_lt_le(v, c.value, vals[i]);
                } else {
                    lemma_le_lt(vals[i], c.value, v);
                }
            }
            assert(first_extreme(vals, k, c2.value, least));
        }
        lemma_extreme_from(c2, vals, k + 1, least);
    } else {
        assert(vals.skip(k).len() == 0);
        let j0 = choose|j: int| j < k && #[trigger] first_extreme(vals, j, c.value, least);
        assert(first_extreme(vals, j0, c.value, least));
    }
}

/// A first value stays: a variable taking the first value, updated from its fresh state
/// with `vals` (at least one), holds the first of them.
pub proof fn law_first_stays(name: Seq<char>, vals: Seq<DecimalValue>)
    requires
        vals.len() > 0,
    ensures
        updated_with(fresh_calc(name, CalculationType::First), vals).value == vals[0],
{
    lemma_first_from(apply_update(fresh_calc(name, CalculationType::First), vals[0]), vals.drop_first());
}

proof fn lemma_first_from(c: CalcView, vals: Seq<DecimalValue>)
    requires
        c.kind == CalculationType::First,
        c.count > 0,
    ensures
        updated_with(c, vals).value == c.value,
    decreases vals.len(),
{
    if vals.len() > 0 {
        lemma_first_from(apply_update(c, vals[0]), vals.drop_first());
    }
}

} // verus!
