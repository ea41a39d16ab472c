//! Layout engine: fills the bands of a template with the rows of a data source.
use vstd::prelude::*;
use vstd::string::*;
use crate::datasource::{lookup_field, message_of, DataSource, DataSourceError, JsonDataSource, RowView};
use crate::decimal::{decimal_from_str, decimal_parse_error};
use crate::expression::{parse_expression, spec_parse_expression, ExprView, Expression};
use crate::filled::{FilledDocument, FilledElement, FilledPage, FilledText, PageView, TextView};
use crate::text::{join, same_text, trim_ws};
use crate::types::{
    lemma_lookup_absent, lemma_lookup_index, lemma_lookup_put, lemma_put_at, lemma_put_new, lookup_named, put_named, Band,
    Element, Template, Variable,
};
use crate::variables::{
    apply_update, calc_text, calculation_of, fresh_calc, update_in_range, CalcView, CalculationType,
    VariableCalculator,
};

verus! {

/// Errors of the layout.
#[derive(Debug)]
pub enum LayoutError {
    DataSourceError(String),
    ExpressionError(String),
    VariableError(String),
    Other(String),
}

impl LayoutError {
    /// The text of this error.
    pub fn message(&self) -> (r: String)
        ensures
            match self {
                LayoutError::DataSourceError(s) => r@ == "Data source error: "@ + s@,
                LayoutError::ExpressionError(s) => r@ == "Expression error: "@ + s@,
                LayoutError::VariableError(s) => r@ == "Variable error: "@ + s@,
                LayoutError::Other(s) => r@ == "Layout error: "@ + s@,
            },
    {
        match self {
            LayoutError::DataSourceError(s) => join("Data source error: ", s.as_str()),
            LayoutError::ExpressionError(s) => join("Expression error: ", s.as_str()),
            LayoutError::VariableError(s) => join("Variable error: ", s.as_str()),
            LayoutError::Other(s) => join("Layout error: ", s.as_str()),
        }
    }
}

/// Why a layout stops: the data source has no current row or no such field (the row and
/// the name that was looked up); a variable
/// is unknown, has an unknown calculation or gets a text that is no decimal (with the text
/// of the error that says so); or a sum, a count or a coordinate overflows (where the
/// arithmetic would panic).
pub enum LayoutFault {
    Source(Option<RowView>, Seq<char>),
    Variable(Seq<char>),
    Overflow,
}

/// The error `e` reports the fault `f`: a source error with the text that the source `D`
/// gives for the missing field, or a variable error with the text of the fault.
pub open spec fn reports<D: DataSource>(e: LayoutError, f: LayoutFault) -> bool {
    match f {
        LayoutFault::Source(row, name) => e matches LayoutError::DataSourceError(m) && m@ == D::missing_text(row, name),
        LayoutFault::Variable(t) => e matches LayoutError::VariableError(m) && m@ == t,
        LayoutFault::Overflow => false,
    }
}

/// `m` is the text of an error of a data source.
pub open spec fn source_text(m: Seq<char>) -> bool {
    exists|x: DataSourceError| #[trigger] message_of(x, m)
}

/// How an outcome `r` of a step relates to the fault that the step meets by its
/// specification: success only where there is no fault, `None` only for an overflow, an
/// error for any other fault, a data-source error only with the text of an error that the
/// source gave; and, where the source `D` cannot fail on its own (or is not read), exactly
/// the outcome that the fault calls for.
pub open spec fn conforms<D: DataSource, T>(fault: Option<LayoutFault>, r: Option<Result<T, LayoutError>>, reliable: bool) -> bool {
    &&& (r matches Some(Ok(_)) ==> fault is None)
    &&& (r matches Some(Err(LayoutError::DataSourceError(m))) ==> source_text(m@))
    &&& (r is None ==> fault == Some(LayoutFault::Overflow))
    &&& ((fault matches Some(f) && f != LayoutFault::Overflow) ==> r matches Some(Err(_)))
    &&& reliable ==> match fault {
        None => r matches Some(Ok(_)),
        Some(LayoutFault::Overflow) => r is None,
        Some(f) => r matches Some(Err(e)) && reports::<D>(e, f),
    }
}

/// The fault that a specified result meets, if any.
pub open spec fn fault_in<T>(x: Result<T, LayoutFault>) -> Option<LayoutFault> {
    match x {
        Ok(_) => None,
        Err(f) => Some(f),
    }
}

/// The variables of an engine: each name with the state of its calculator.
pub type VarsView = Seq<(Seq<char>, CalcView)>;

/// The value of an expression, with the variables `vars` and the current row `row`.
pub open spec fn eval_spec(vars: VarsView, row: Option<RowView>, e: ExprView) -> Result<Seq<char>, LayoutFault> {
    match e {
        ExprView::FieldRef(name) => match row {
            Some(r) => match lookup_field(r, name) {
                Some(t) => Ok(t),
                None => Err(LayoutFault::Source(row, name)),
            },
            None => Err(LayoutFault::Source(row, name)),
        },
        ExprView::VariableRef(name) => match lookup_named(vars, name) {
            Some(c) => Ok(calc_text(c)),
            None => Err(LayoutFault::Variable("Variable not found: "@ + name)),
        },
        ExprView::Literal(t) => Ok(t),
    }
}

/// Setting up the calculators of the template's variables, in order: each one fresh, under
/// its name; an unknown calculation stops there.
pub open spec fn init_spec(vars: VarsView, tvars: Seq<Variable>) -> (VarsView, Option<LayoutFault>)
    decreases tvars.len(),
{
    if tvars.len() == 0 {
        (vars, None)
    } else {
        match calculation_of(tvars[0].calculation@) {
            None => (vars, Some(LayoutFault::Variable("Variable error: "@ + ("Unknown calculation type: "@ + tvars[0].calculation@)))),
            Some(k) => init_spec(
                put_named(vars, tvars[0].name@, fresh_calc(tvars[0].name@, k)),
                tvars.drop_first(),
            ),
        }
    }
}

/// Updating the calculator of one variable with the value of its expression.
pub open spec fn update_one_spec(vars: VarsView, row: Option<RowView>, tv: Variable) -> (VarsView, Option<LayoutFault>) {
    match eval_spec(vars, row, spec_parse_expression(tv.expression@)) {
        Err(f) => (vars, Some(f)),
        Ok(text) => match lookup_named(vars, tv.name@) {
            None => (vars, None),
            Some(c) => match decimal_from_str(text) {
                None => (vars, Some(LayoutFault::Variable("Invalid decimal value: "@ + (text + ": "@ + decimal_parse_error(text))))),
                Some(v) => if update_in_range(c, v) {
                    (put_named(vars, tv.name@, apply_update(c, v)), None)
                } else {
                    (vars, Some(LayoutFault::Overflow))
                },
            },
        },
    }
}

/// Updating the calculators of all the template's variables, in order, for one row.
pub open spec fn update_spec(vars: VarsView, row: Option<RowView>, tvars: Seq<Variable>) -> (VarsView, Option<LayoutFault>)
    decreases tvars.len(),
{
    if tvars.len() == 0 {
        (vars, None)
    } else {
        let (v1, f) = update_one_spec(vars, row, tvars[0]);
        if f is Some {
            (v1, f)
        } else {
            update_spec(v1, row, tvars.drop_first())
        }
    }
}

/// A text placed at the band offset `y`.
pub open spec fn placed(x: u32, y: u32, dy: u32, width: u32, height: u32, text: Seq<char>, style: crate::types::TextStyle) -> Result<TextView, LayoutFault> {
    if y + dy <= u32::MAX {
        Ok(TextView { x, y: (y + dy) as u32, width, height, text, style })
    } else {
        Err(LayoutFault::Overflow)
    }
}

/// Filling one element at the band offset `y`.
pub open spec fn fill_spec(vars: VarsView, row: Option<RowView>, el: Element, y: u32) -> Result<TextView, LayoutFault> {
    match el {
        Element::StaticText(st) => placed(st.x, y, st.y, st.width, st.height, st.text@, st.style),
        Element::TextField(tf) => match eval_spec(vars, row, spec_parse_expression(tf.expression@)) {
            Err(f) => Err(f),
            Ok(t) => placed(tf.x, y, tf.y, tf.width, tf.height, t, tf.style),
        },
    }
}

/// Filling the elements of a band at the offset `y`, in order.
pub open spec fn fill_band_spec(vars: VarsView, row: Option<RowView>, els: Seq<Element>, y: u32) -> Result<Seq<TextView>, LayoutFault>
    decreases els.len(),
{
    if els.len() == 0 {
        Ok(Seq::empty())
    } else {
        match fill_spec(vars, row, els[0], y) {
            Err(f) => Err(f),
            Ok(t) => match fill_band_spec(vars, row, els.drop_first(), y) {
                Err(f) => Err(f),
                Ok(rest) => Ok(seq![t] + rest),
            },
        }
    }
}

/// The offset below a band of height `h` placed at `y`.
pub open spec fn below(y: u32, h: u32) -> Result<u32, LayoutFault> {
    if y + h <= u32::MAX {
        Ok((y + h) as u32)
    } else {
        Err(LayoutFault::Overflow)
    }
}

/// The detail band for each of `rows`, from the offset `y`: the variables are updated
/// with the row, the band is filled, and the next row comes below it. Gives the texts,
/// the offset after the last row and the row that is current at the end.
pub open spec fn detail_spec(
    vars: VarsView,
    tvars: Seq<Variable>,
    band: Band,
    rows: Seq<RowView>,
    y: u32,
    cursor: Option<RowView>,
) -> (VarsView, Result<(Seq<TextView>, u32, Option<RowView>), LayoutFault>)
    decreases rows.len(),
{
    if rows.len() == 0 {
        (vars, Ok((Seq::empty(), y, cursor)))
    } else {
        let row = Some(rows[0]);
        let (v1, f) = update_spec(vars, row, tvars);
        if f is Some {
            (v1, Err(f.unwrap()))
        } else {
            match fill_band_spec(v1, row, band.elements@, y) {
                Err(f) => (v1, Err(f)),
                Ok(els) => match below(y, band.height) {
                    Err(f) => (v1, Err(f)),
                    Ok(y1) => {
                        let (v2, rest) = detail_spec(v1, tvars, band, rows.drop_first(), y1, row);
                        (v2, match rest {
                            Err(f) => Err(f),
                            Ok((more, y2, c2)) => Ok((els + more, y2, c2)),
                        })
                    },
                },
            }
        }
    }
}

/// The title band, filled at the offset `y`, with the offset below it.
pub open spec fn title_spec(vars: VarsView, t: Template, cursor: Option<RowView>, y: u32) -> Result<(Seq<TextView>, u32), LayoutFault> {
    match lookup_named(t.bands@, "title"@) {
        None => Ok((Seq::empty(), y)),
        Some(b) => match fill_band_spec(vars, cursor, b.elements@, y) {
            Err(f) => Err(f),
            Ok(els) => match below(y, b.height) {
                Err(f) => Err(f),
                Ok(y1) => Ok((els, y1)),
            },
        },
    }
}

/// The detail rows, or nothing when the template has no detail band.
pub open spec fn details_spec(vars: VarsView, t: Template, rows: Seq<RowView>, y: u32, cursor: Option<RowView>)
    -> (VarsView, Result<(Seq<TextView>, u32, Option<RowView>), LayoutFault>)
{
    match lookup_named(t.bands@, "detail"@) {
        None => (vars, Ok((Seq::empty(), y, cursor))),
        Some(b) => detail_spec(vars, t.variables@, b, rows, y, cursor),
    }
}

/// The summary band, filled at the offset `y`.
pub open spec fn summary_spec(vars: VarsView, t: Template, cursor: Option<RowView>, y: u32) -> Result<Seq<TextView>, LayoutFault> {
    match lookup_named(t.bands@, "summary"@) {
        None => Ok(Seq::empty()),
        Some(b) => fill_band_spec(vars, cursor, b.elements@, y),
    }
}

/// The layout of a template over the rows still to come of a source whose current row is
/// `cursor`: the calculators are set up; the title band is filled from the top margin down;
/// then the detail band once for each row; then the summary band, with the last row current.
/// Gives the variables at the end and the texts of the single page, in that order.
pub open spec fn layout_spec(vars: VarsView, t: Template, cursor: Option<RowView>, rows: Seq<RowView>)
    -> (VarsView, Result<Seq<TextView>, LayoutFault>)
{
    let (v1, f) = init_spec(vars, t.variables@);
    if f is Some {
        (v1, Err(f.unwrap()))
    } else {
        match title_spec(v1, t, cursor, t.page.margins[0]) {
            Err(f) => (v1, Err(f)),
            Ok((els1, y1)) => {
                let (v2, d) = details_spec(v1, t, rows, y1, cursor);
                match d {
                    Err(f) => (v2, Err(f)),
                    Ok((els2, y2, c2)) => match summary_spec(v2, t, c2, y2) {
                        Err(f) => (v2, Err(f)),
                        Ok(els3) => (v2, Ok(els1 + els2 + els3)),
                    },
                }
            },
        }
    }
}

/// An element reads the source: a text field whose expression refers to a field.
pub open spec fn element_reads(el: Element) -> bool {
    match el {
        Element::TextField(tf) => spec_parse_expression(tf.expression@) is FieldRef,
        Element::StaticText(_) => false,
    }
}

/// Some element of a band reads the source.
pub open spec fn band_reads(els: Seq<Element>) -> bool {
    exists|i: int| 0 <= i < els.len() && #[trigger] element_reads(els[i])
}

/// A layout of `t` reads its source: it has a detail band, which moves the source along
/// its rows, or a text field of its title or summary band refers to a field. A layout
/// that does not read its source does not call it at all.
pub open spec fn reads_source(t: Template) -> bool {
    ||| lookup_named(t.bands@, "detail"@) is Some
    ||| (lookup_named(t.bands@, "title"@) matches Some(b) && band_reads(b.elements@))
    ||| (lookup_named(t.bands@, "summary"@) matches Some(b) && band_reads(b.elements@))
}

/// What a layout that succeeds does to its source: with a detail band it reads every row
/// still to come; without one it moves nothing.
pub open spec fn reads_rows<D: DataSource>(t: Template, before: D, after: D) -> bool {
    if lookup_named(t.bands@, "detail"@) is Some {
        after.rows_ahead().len() == 0 && after.all_rows() == before.all_rows()
    } else {
        after.rows_ahead() == before.rows_ahead() && after.current_row() == before.current_row()
    }
}

/// The document that a layout gives: one page of the template's size with the texts.
pub open spec fn document_of(t: Template, els: Seq<TextView>) -> Seq<PageView> {
    seq![PageView { width: t.page.width, height: t.page.height, elements: els }]
}

pub struct LayoutEngine {
    variables: Vec<(String, VariableCalculator)>,
}

impl View for LayoutEngine {
    type V = VarsView;

    closed spec fn view(&self) -> VarsView {
        self.variables@.map_values(|e: (String, VariableCalculator)| (e.0@, e.1@))
    }
}

impl LayoutEngine {
    pub fn new() -> (r: Self)
        ensures
            r@.len() == 0,
    {
        let r = LayoutEngine { variables: Vec::new() };
        assert(r@ =~= Seq::<(Seq<char>, CalcView)>::empty());
        r
    }

    /// The engine, duplicated.
    pub fn duplicate(&self) -> (r: Self)
        ensures
            r@ == self@,
    {
        let mut variables: Vec<(String, VariableCalculator)> = Vec::new();
        let mut i: usize = 0;
        while i < self.variables.len()
            invariant
                i <= self.variables@.len(),
                variables@.len() == i,
                forall|k: int| 0 <= k < i ==> (#[trigger] variables@[k]).0@ == self.variables@[k].0@
                    && variables@[k].1@ == self.variables@[k].1@,
            decreases self.variables@.len() - i,
        {
            variables.push((self.variables[i].0.clone(), self.variables[i].1.duplicate()));
            i = i + 1;
        }
        let r = LayoutEngine { variables };
        assert(r@ =~= self@);
        r
    }

    /// The index where `name` first stands among the variables, if anywhere.
    fn find_variable(&self, name: &str) -> (r: Option<usize>)
        ensures
            match r {
                Some(i) => i < self@.len() && self@[i as int].0 == name@
                    && forall|j: int| 0 <= j < i ==> self@[j].0 != name@,
                None => forall|j: int| 0 <= j < self@.len() ==> self@[j].0 != name@,
            },
    {
        let mut i: usize = 0;
        while i < self.variables.len()
            invariant
                i <= self.variables@.len(),
                forall|j: int| 0 <= j < i ==> self@[j].0 != name@,
            decreases self.variables@.len() - i,
        {
            if same_text(self.variables[i].0.as_str(), name) {
                return Some(i);
            }
            i = i + 1;
        }
        None
    }

    /// Put a calculator under `name`, in place of the one that was there.
    fn put_variable(&mut self, name: String, calc: VariableCalculator)
        ensures
            final(self)@ == put_named(old(self)@, name@, calc@),
    {
        let ghost before = self@;
        let ghost entry = (name@, calc@);
        match self.find_variable(name.as_str()) {
            Some(i) => {
                proof {
                    lemma_put_at(before, name@, calc@, i as int);
                }
                self.variables.set(i, (name, calc));
                assert(self@ =~= before.update(i as int, entry));
            },
            None => {
                proof {
                    lemma_put_new(before, name@, calc@);
                }
                self.variables.push((name, calc));
                assert(self@ =~= before.push(entry));
            },
        }
    }

    /// Set up the calculators of the template's variables.
    fn init_variables(&mut self, template: &Template) -> (r: Result<(), LayoutError>)
        ensures
            final(self)@ == init_spec(old(self)@, template.variables@).0,
            match init_spec(old(self)@, template.variables@).1 {
                None => r is Ok,
                Some(f) => r matches Err(LayoutError::VariableError(m)) && f == LayoutFault::Variable(m@),
            },
    {
        let mut i: usize = 0;
        assert(template.variables@.skip(0) =~= template.variables@);
        while i < template.variables.len()
            invariant
                i <= template.variables@.len(),
                init_spec(old(self)@, template.variables@) == init_spec(self@, template.variables@.skip(i as int)),
            decreases template.variables@.len() - i,
        {
            let var = &template.variables[i];
            assert(template.variables@.skip(i as int)[0] == *var);
            assert(template.variables@.skip(i as int).drop_first() =~= template.variables@.skip(i + 1));
            let calc_type = match CalculationType::parse(var.calculation.as_str()) {
                Ok(k) => k,
                Err(e) => return Err(LayoutError::VariableError(e.message())),
            };
            let calculator = VariableCalculator::new(var.name.clone(), calc_type);
            self.put_variable(var.name.clone(), calculator);
            i = i + 1;
        }
        assert(template.variables@.skip(i as int).len() == 0);
        Ok(())
    }
}

impl LayoutEngine {
    /// The value of an expression, with the current row of the source.
    fn evaluate_expression<D: DataSource>(&self, expr: &Expression, data_source: &D) -> (r: Result<String, LayoutError>)
        ensures
            conforms::<D, _>(fault_in(eval_spec(self@, data_source.current_row(), expr@)), Some(r), !data_source.may_fail() || !(expr@ is FieldRef)),
            r matches Ok(t) ==> eval_spec(self@, data_source.current_row(), expr@) == Ok::<Seq<char>, LayoutFault>(t@),
            match expr@ {
                ExprView::VariableRef(n) => lookup_named(self@, n) is None ==> (r matches Err(LayoutError::VariableError(m))
                    && m@ == "Variable not found: "@ + n),
                ExprView::FieldRef(_) => r is Err ==> r matches Err(LayoutError::DataSourceError(_)),
                _ => true,
            },
    {
        match expr {
            Expression::FieldRef(field_name) => match data_source.get_field(field_name.as_str()) {
                Ok(t) => Ok(t),
                Err(e) => {
                    let m = e.message();
                    proof {
                        assert(message_of(e, m@));
                    }
                    Err(LayoutError::DataSourceError(m))
                },
            },
            Expression::VariableRef(var_name) => match self.find_variable(var_name.as_str()) {
                Some(i) => {
                    proof {
                        lemma_lookup_index(self@, var_name@, i as int);
                    }
                    Ok(self.variables[i].1.get_value())
                },
                None => {
                    proof {
                        lemma_lookup_absent(self@, var_name@);
                    }
                    Err(LayoutError::VariableError(join("Variable not found: ", var_name.as_str())))
                },
            },
            Expression::Literal(text) => Ok(text.clone()),
        }
    }

    /// Update the calculator of one variable with the value of its expression.
    fn update_variable<D: DataSource>(&mut self, var: &Variable, data_source: &D) -> (r: Option<Result<(), LayoutError>>)
        ensures
            conforms::<D, _>(update_one_spec(old(self)@, data_source.current_row(), *var).1, r, !data_source.may_fail()),
            (r matches Some(Ok(_)) || r is None || !data_source.may_fail())
                ==> final(self)@ == update_one_spec(old(self)@, data_source.current_row(), *var).0,
    {
        let expr = match parse_expression(var.expression.as_str()) {
            Ok(e) => e,
            Err(e) => return Some(Err(LayoutError::ExpressionError(e.message()))),
        };
        let value = match self.evaluate_expression(&expr, data_source) {
            Ok(v) => v,
            Err(e) => return Some(Err(e)),
        };
        let ghost before = self@;
        match self.find_variable(var.name.as_str()) {
            None => {
                proof {
                    lemma_lookup_absent(before, var.name@);
                }
                Some(Ok(()))
            },
            Some(i) => {
                proof {
                    lemma_lookup_index(before, var.name@, i as int);
                }
                let (name, mut calc) = self.variables.remove(i);
                let outcome = calc.try_update(value.as_str());
                let ghost after_calc = calc@;
                self.variables.insert(i, (name, calc));
                match outcome {
                    None => {
                        assert(self@ =~= before);
                        None
                    },
                    Some(Err(e)) => {
                        assert(self@ =~= before);
                        Some(Err(LayoutError::VariableError(e.message())))
                    },
                    Some(Ok(())) => {
                        proof {
                            lemma_put_at(before, var.name@, after_calc, i as int);
                            assert(self@ =~= before.update(i as int, (var.name@, after_calc)));
                        }
                        Some(Ok(()))
                    },
                }
            },
        }
    }

    /// Update the calculators of all the template's variables with the current row.
    fn update_variables<D: DataSource>(&mut self, template: &Template, data_source: &D) -> (r: Option<Result<(), LayoutError>>)
        ensures
            conforms::<D, _>(update_spec(old(self)@, data_source.current_row(), template.variables@).1, r, !data_source.may_fail()),
            (r matches Some(Ok(_)) || r is None || !data_source.may_fail())
                ==> final(self)@ == update_spec(old(self)@, data_source.current_row(), template.variables@).0,
    {
        let ghost row = data_source.current_row();
        let ghost tvars = template.variables@;
        let mut i: usize = 0;
        assert(tvars.skip(0) =~= tvars);
        while i < template.variables.len()
            invariant
                i <= tvars.len(),
                tvars == template.variables@,
                row == data_source.current_row(),
                update_spec(old(self)@, row, tvars) == update_spec(self@, row, tvars.skip(i as int)),
            decreases tvars.len() - i,
        {
            assert(tvars.skip(i as int)[0] == tvars[i as int]);
            assert(tvars.skip(i as int).drop_first() =~= tvars.skip(i + 1));
            match self.update_variable(&template.variables[i], data_source) {
                None => return None,
                Some(Err(e)) => return Some(Err(e)),
                Some(Ok(())) => {},
            }
            i = i + 1;
        }
        assert(tvars.skip(i as int).len() == 0);
        Some(Ok(()))
    }

    /// One element, filled at the band offset `y_offset`; `None` where its position overflows.
    fn fill_element<D: DataSource>(&self, element: &Element, data_source: &D, y_offset: u32) -> (r: Option<Result<FilledElement, LayoutError>>)
        ensures
            conforms::<D, _>(fault_in(fill_spec(self@, data_source.current_row(), *element, y_offset)), r, !data_source.may_fail() || !element_reads(*element)),
            r matches Some(Ok(e)) ==> fill_spec(self@, data_source.current_row(), *element, y_offset) == Ok::<TextView, LayoutFault>(e@),
    {
        match element {
            Element::StaticText(st) => {
                if y_offset > u32::MAX - st.y {
                    return None;
                }
                let filled = FilledText {
                    x: st.x,
                    y: y_offset + st.y,
                    width: st.width,
                    height: st.height,
                    text: st.text.clone(),
                    style: st.style.duplicate(),
                };
                Some(Ok(FilledElement::Text(filled)))
            },
            Element::TextField(tf) => {
                let expr = match parse_expression(tf.expression.as_str()) {
                    Ok(e) => e,
                    Err(e) => return Some(Err(LayoutError::ExpressionError(e.message()))),
                };
                let text = match self.evaluate_expression(&expr, data_source) {
                    Ok(t) => t,
                    Err(e) => return Some(Err(e)),
                };
                if y_offset > u32::MAX - tf.y {
                    return None;
                }
                let filled = FilledText {
                    x: tf.x,
                    y: y_offset + tf.y,
                    width: tf.width,
                    height: tf.height,
                    text,
                    style: tf.style.duplicate(),
                };
                Some(Ok(FilledElement::Text(filled)))
            },
        }
    }

    /// The elements of a band, filled at the offset `y_offset` and added to `page`, in order.
    fn fill_band<D: DataSource>(&self, elements: &Vec<Element>, data_source: &D, y_offset: u32, page: &mut FilledPage)
        -> (r: Option<Result<(), LayoutError>>)
        ensures
            conforms::<D, _>(fault_in(fill_band_spec(self@, data_source.current_row(), elements@, y_offset)), r, !data_source.may_fail() || !band_reads(elements@)),
            r matches Some(Ok(_)) ==> fill_band_spec(self@, data_source.current_row(), elements@, y_offset) matches Ok(els)
                && final(page)@ == (PageView { elements: old(page)@.elements + els, ..old(page)@ }),
    {
        let ghost row = data_source.current_row();
        let ghost start = page@;
        let mut i: usize = 0;
        assert(elements@.skip(0) =~= elements@);
        assert(start.elements + Seq::<TextView>::empty() =~= start.elements);
        while i < elements.len()
            invariant
                i <= elements@.len(),
                row == data_source.current_row(),
                page@.width == start.width,
                page@.height == start.height,
                match fill_band_spec(self@, row, elements@.skip(i as int), y_offset) {
                    Ok(rest) => fill_band_spec(self@, row, elements@, y_offset) == Ok::<Seq<TextView>, LayoutFault>(page@.elements.skip(start.elements.len() as int) + rest),
                    Err(f) => fill_band_spec(self@, row, elements@, y_offset) == Err::<Seq<TextView>, LayoutFault>(f),
                },
                page@.elements.len() >= start.elements.len(),
                page@.elements.take(start.elements.len() as int) == start.elements,
            decreases elements@.len() - i,
        {
            assert(elements@.skip(i as int)[0] == elements@[i as int]);
            assert(elements@.skip(i as int).drop_first() =~= elements@.skip(i + 1));
            let filled = match self.fill_element(&elements[i], data_source, y_offset) {
                None => return None,
                Some(Err(e)) => return Some(Err(e)),
                Some(Ok(f)) => f,
            };
            let ghost before = page@.elements;
            page.add_element(filled);
            assert(page@.elements.skip(start.elements.len() as int) =~= before.skip(start.elements.len() as int).push(filled@));
            assert(page@.elements.take(start.elements.len() as int) =~= before.take(start.elements.len() as int));
            assert(before.skip(start.elements.len() as int).push(filled@) + fill_band_spec(self@, row, elements@.skip(i + 1), y_offset)->Ok_0
                =~= before.skip(start.elements.len() as int) + (seq![filled@] + fill_band_spec(self@, row, elements@.skip(i + 1), y_offset)->Ok_0));
            i = i + 1;
        }
        assert(elements@.skip(i as int).len() == 0);
        assert(page@.elements =~= start.elements + page@.elements.skip(start.elements.len() as int));
        Some(Ok(()))
    }
}

impl LayoutEngine {
    /// The detail band for each row still to come, from the offset `y`, added to `page`.
    /// Gives the offset below the last row.
    fn fill_details<D: DataSource>(
        &mut self,
        template: &Template,
        band: &Band,
        data_source: &mut D,
        y: u32,
        page: &mut FilledPage,
    ) -> (r: Option<Result<u32, LayoutError>>)
        ensures
            ({
                let (vs, res) = detail_spec(old(self)@, template.variables@, *band, old(data_source).rows_ahead(), y, old(data_source).current_row());
                &&& conforms::<D, _>(fault_in(res), r, !old(data_source).may_fail())
                &&& (r matches Some(Ok(_)) || r is None || !old(data_source).may_fail()) ==> final(self)@ == vs
                &&& r matches Some(Ok(y2)) ==> res matches Ok((els, y3, c)) && y2 == y3
                    && final(page)@ == (PageView { elements: old(page)@.elements + els, ..old(page)@ })
                    && final(data_source).current_row() == c
                    && final(data_source).rows_ahead().len() == 0
                    && final(data_source).all_rows() == old(data_source).all_rows()
                    && final(data_source).may_fail() == old(data_source).may_fail()
            }),
    {
        let ghost tvars = template.variables@;
        let ghost spec0 = detail_spec(self@, tvars, *band, data_source.rows_ahead(), y, data_source.current_row());
        let ghost reliable = !data_source.may_fail();
        let ghost all = data_source.all_rows();
        let ghost start = page@;
        let mut current_y = y;
        assert(start.elements + Seq::<TextView>::empty() =~= start.elements);
        loop
            invariant
                tvars == template.variables@,
                spec0 == detail_spec(old(self)@, tvars, *band, old(data_source).rows_ahead(), y, old(data_source).current_row()),
                reliable == !old(data_source).may_fail(),
                all == old(data_source).all_rows(),
                start == old(page)@,
                reliable == !data_source.may_fail(),
                all == data_source.all_rows(),
                page@.width == start.width,
                page@.height == start.height,
                page@.elements.len() >= start.elements.len(),
                page@.elements.take(start.elements.len() as int) == start.elements,
                ({
                    let (vr, rr) = detail_spec(self@, tvars, *band, data_source.rows_ahead(), current_y, data_source.current_row());
                    let acc = page@.elements.skip(start.elements.len() as int);
                    &&& spec0.0 == vr
                    &&& match rr {
                        Err(f) => spec0.1 == Err::<(Seq<TextView>, u32, Option<RowView>), LayoutFault>(f),
                        Ok((m, y2, c2)) => spec0.1 == Ok::<(Seq<TextView>, u32, Option<RowView>), LayoutFault>((acc + m, y2, c2)),
                    }
                }),
            decreases data_source.rows_ahead().len(),
        {
            let ghost ahead = data_source.rows_ahead();
            let ghost vars0 = self@;
            let ghost y0 = current_y;
            let ghost acc0 = page@.elements.skip(start.elements.len() as int);
            match data_source.next() {
                Err(e) => {
                    let m = e.message();
                    proof {
                        assert(message_of(e, m@));
                    }
                    return Some(Err(LayoutError::DataSourceError(m)));
                },
                Ok(false) => {
                    assert(page@.elements =~= start.elements + acc0);
                    assert(acc0 + Seq::<TextView>::empty() =~= acc0);
                    return Some(Ok(current_y));
                },
                Ok(true) => {},
            }
            let ghost row = data_source.current_row();
            assert(row == Some(ahead[0]));
            match self.update_variables(template, data_source) {
                None => return None,
                Some(Err(e)) => return Some(Err(e)),
                Some(Ok(())) => {},
            }
            let ghost vars1 = self@;
            let ghost before_band = page@;
            match self.fill_band(&band.elements, data_source, current_y, page) {
                None => return None,
                Some(Err(e)) => return Some(Err(e)),
                Some(Ok(())) => {},
            }
            let ghost els = fill_band_spec(vars1, row, band.elements@, y0)->Ok_0;
            if current_y > u32::MAX - band.height {
                return None;
            }
            current_y = current_y + band.height;
            proof {
                assert(page@.elements =~= before_band.elements + els);
                assert(page@.elements.take(start.elements.len() as int) =~= before_band.elements.take(start.elements.len() as int));
                assert(page@.elements.skip(start.elements.len() as int) =~= acc0 + els);
                let (vr, rr) = detail_spec(self@, tvars, *band, data_source.rows_ahead(), current_y, data_source.current_row());
                match rr {
                    Err(f) => {},
                    Ok((m, y2, c2)) => {
                        assert(acc0 + (els + m) =~= (acc0 + els) + m);
                    },
                }
            }
        }
    }
}

impl LayoutEngine {
    /// Layout a template with data as [`Self::layout`] does, for any source, testing for
    /// overflow on the way: where a sum, a count or a coordinate would overflow it stops
    /// there and returns `None` (the source may have moved on by then).
    ///
    /// The outcome is the one that the specification of the layout gives wherever the source
    /// cannot fail or the template does not read it; a template that does not read its source
    /// leaves it untouched. An unknown calculation is reported before the source is touched.
    pub fn checked_layout<D: DataSource>(&mut self, template: &Template, data_source: &mut D) -> (r: Option<Result<FilledDocument, LayoutError>>)
        ensures
            ({
                let (vs, res) = layout_spec(old(self)@, *template, old(data_source).current_row(), old(data_source).rows_ahead());
                let reliable = !old(data_source).may_fail() || !reads_source(*template);
                &&& conforms::<D, _>(fault_in(res), r, reliable)
                &&& (r matches Some(Ok(_)) || r is None || reliable) ==> final(self)@ == vs
                &&& r matches Some(Ok(doc)) ==> res matches Ok(els) && doc@ == document_of(*template, els)
                &&& r matches Some(Ok(_)) ==> reads_rows(*template, *old(data_source), *final(data_source))
                &&& !reads_source(*template) ==> *final(data_source) == *old(data_source)
                &&& init_spec(old(self)@, template.variables@).1 matches Some(f) ==> r matches Some(Err(e))
                    && reports::<D>(e, f) && *final(data_source) == *old(data_source)
            }),
    {
        let ghost vars0 = self@;
        let ghost cursor0 = data_source.current_row();
        let ghost rows0 = data_source.rows_ahead();
        proof {
            lemma_init_fault(vars0, template.variables@);
        }
        match self.init_variables(template) {
            Err(e) => return Some(Err(e)),
            Ok(()) => {},
        }
        let ghost v1 = self@;
        let mut page = FilledPage::new(template.page.width, template.page.height);
        let mut current_y = template.page.margins[0];
        if let Some(title_band) = template.bands.get("title") {
            match self.fill_band(&title_band.elements, data_source, current_y, &mut page) {
                None => return None,
                Some(Err(e)) => return Some(Err(e)),
                Some(Ok(())) => {},
            }
            if current_y > u32::MAX - title_band.height {
                return None;
            }
            current_y = current_y + title_band.height;
        }
        let ghost title_els = page@.elements;
        let ghost y1 = current_y;
        assert(title_spec(v1, *template, cursor0, template.page.margins[0]) == Ok::<(Seq<TextView>, u32), LayoutFault>((title_els, y1)));
        assert(data_source.current_row() == cursor0 && data_source.rows_ahead() == rows0);
        if let Some(detail_band) = template.bands.get("detail") {
            match self.fill_details(template, detail_band, data_source, current_y, &mut page) {
                None => return None,
                Some(Err(e)) => return Some(Err(e)),
                Some(Ok(y2)) => {
                    current_y = y2;
                },
            }
            proof {
                let d = detail_spec(v1, template.variables@, *detail_band, rows0, y1, cursor0);
                let els = page@.elements.skip(title_els.len() as int);
                assert(els =~= d.1->Ok_0.0);
                assert(page@.elements =~= title_els + els);
                assert(details_spec(v1, *template, rows0, y1, cursor0)
                    == (self@, Ok::<(Seq<TextView>, u32, Option<RowView>), LayoutFault>((els, current_y, data_source.current_row()))));
            }
        } else {
            proof {
                let els = page@.elements.skip(title_els.len() as int);
                assert(els =~= Seq::<TextView>::empty());
                assert(details_spec(v1, *template, rows0, y1, cursor0)
                    == (self@, Ok::<(Seq<TextView>, u32, Option<RowView>), LayoutFault>((els, current_y, data_source.current_row()))));
            }
        }
        let ghost v2 = self@;
        let ghost detail_els = page@.elements.skip(title_els.len() as int);
        proof {
            assert(page@.elements =~= title_els + detail_els);
            assert(layout_spec(vars0, *template, cursor0, rows0) == (v2, match summary_spec(v2, *template, data_source.current_row(), current_y) {
                Err(f) => Err::<Seq<TextView>, LayoutFault>(f),
                Ok(e3) => Ok::<Seq<TextView>, LayoutFault>(title_els + detail_els + e3),
            }));
        }
        if let Some(summary_band) = template.bands.get("summary") {
            match self.fill_band(&summary_band.elements, data_source, current_y, &mut page) {
                None => return None,
                Some(Err(e)) => return Some(Err(e)),
                Some(Ok(())) => {},
            }
        }
        let ghost summary_els = page@.elements.skip((title_els.len() + detail_els.len()) as int);
        proof {
            assert(page@.elements =~= title_els + detail_els + summary_els);
        }
        let mut doc = FilledDocument::new();
        doc.add_page(page);
        assert(doc@ =~= document_of(*template, title_els + detail_els + summary_els));
        Some(Ok(doc))
    }
}

impl LayoutEngine {
    /// Layout a template with data: the calculators of the template's variables are set up
    /// (replacing those of the same names); the title band is filled from the top margin down;
    /// the detail band once for each row that the source still has, each row first updating
    /// the variables; then the summary band. The document has one page of the template's size.
    ///
    /// Where the arithmetic would overflow (a sum of decimals, a count, or a coordinate),
    /// `requires` leaves the input out; [`Self::checked_layout`] and [`Self::try_layout`] test
    /// for that.
    pub fn layout<D: DataSource>(&mut self, template: &Template, data_source: &mut D) -> (r: Result<FilledDocument, LayoutError>)
        requires
            layout_spec(old(self)@, *template, old(data_source).current_row(), old(data_source).rows_ahead()).1
                != Err::<Seq<TextView>, LayoutFault>(LayoutFault::Overflow),
        ensures
            ({
                let (vs, res) = layout_spec(old(self)@, *template, old(data_source).current_row(), old(data_source).rows_ahead());
                let reliable = !old(data_source).may_fail() || !reads_source(*template);
                &&& conforms::<D, _>(fault_in(res), Some(r), reliable)
                &&& (r is Ok || reliable) ==> final(self)@ == vs
                &&& r matches Ok(doc) ==> res matches Ok(els) && doc@ == document_of(*template, els)
                &&& r is Ok ==> reads_rows(*template, *old(data_source), *final(data_source))
                &&& !reads_source(*template) ==> *final(data_source) == *old(data_source)
                &&& init_spec(old(self)@, template.variables@).1 matches Some(f) ==> r matches Err(e)
                    && reports::<D>(e, f) && *final(data_source) == *old(data_source)
            }),
    {
        match self.checked_layout(template, data_source) {
            Some(r) => r,
            None => {
                proof {
                    assert(false);
                }
                Err(LayoutError::Other(String::from_str("overflow")))
            },
        }
    }

    /// Layout a template with the rows of a JSON source as [`Self::layout`] does, where the
    /// arithmetic does not overflow; otherwise leave the engine and the source as they are
    /// and return `None`.
    pub fn try_layout(&mut self, template: &Template, data_source: &mut JsonDataSource) -> (r: Option<Result<FilledDocument, LayoutError>>)
        ensures
            ({
                let (vs, res) = layout_spec(old(self)@, *template, old(data_source).current_row(), old(data_source).rows_ahead());
                if res == Err::<Seq<TextView>, LayoutFault>(LayoutFault::Overflow) {
                    &&& r is None
                    &&& final(self)@ == old(self)@
                    &&& final(data_source).rows() == old(data_source).rows()
                    &&& final(data_source).position() == old(data_source).position()
                } else {
                    &&& conforms::<JsonDataSource, _>(fault_in(res), r, true)
                    &&& final(self)@ == vs
                    &&& r matches Some(Ok(doc)) ==> res matches Ok(els) && doc@ == document_of(*template, els)
                    &&& r matches Some(Ok(_)) ==> reads_rows(*template, *old(data_source), *final(data_source))
                }
            }),
    {
        let mut probe = self.duplicate();
        let mut probe_source = data_source.duplicate();
        match probe.checked_layout(template, &mut probe_source) {
            None => None,
            Some(_) => Some(self.layout(template, data_source)),
        }
    }
}

/// Setting up the calculators fails, if at all, on an unknown calculation.
proof fn lemma_init_fault(vars: VarsView, tvars: Seq<Variable>)
    ensures
        init_spec(vars, tvars).1 is None || init_spec(vars, tvars).1 matches Some(LayoutFault::Variable(_)),
    decreases tvars.len(),
{
    if tvars.len() > 0 {
        if let Some(k) = calculation_of(tvars[0].calculation@) {
            lemma_init_fault(put_named(vars, tvars[0].name@, fresh_calc(tvars[0].name@, k)), tvars.drop_first());
        }
    }
}

/// The number of elements of the band named `name`, none if there is no such band.
pub open spec fn band_size(t: Template, name: Seq<char>) -> nat {
    match lookup_named(t.bands@, name) {
        Some(b) => b.elements@.len(),
        None => 0,
    }
}

proof fn lemma_band_len(vars: VarsView, row: Option<RowView>, els: Seq<Element>, y: u32)
    ensures
        fill_band_spec(vars, row, els, y) matches Ok(e) ==> e.len() == els.len(),
    decreases els.len(),
{
    if els.len() > 0 {
        lemma_band_len(vars, row, els.drop_first(), y);
    }
}

proof fn lemma_detail_len(vars: VarsView, tvars: Seq<Variable>, band: Band, rows: Seq<RowView>, y: u32, cursor: Option<RowView>)
    ensures
        detail_spec(vars, tvars, band, rows, y, cursor).1 matches Ok((e, _, _)) ==> e.len() == rows.len() * band.elements@.len(),
    decreases rows.len(),
{
    if rows.len() > 0 {
        let row = Some(rows[0]);
        let (v1, f) = update_spec(vars, row, tvars);
        lemma_band_len(v1, row, band.elements@, y);
        if f is None {
            if let Ok(els) = fill_band_spec(v1, row, band.elements@, y) {
                if let Ok(y1) = below(y, band.height) {
                    lemma_detail_len(v1, tvars, band, rows.drop_first(), y1, row);
                    assert(rows.len() * band.elements@.len() == band.elements@.len() + (rows.len() - 1) * band.elements@.len()) by (nonlinear_arith)
                        requires
                            rows.len() > 0,
                    {
                    }
                }
            }
        }
    }
}

/// A page holds every band: a layout that succeeds places the elements of the title band,
/// those of the detail band once for each row, and those of the summary band.
pub proof fn law_page_holds_all_bands(vars: VarsView, t: Template, cursor: Option<RowView>, rows: Seq<RowView>)
    ensures
        layout_spec(vars, t, cursor, rows).1 matches Ok(els) ==> els.len() == band_size(t, "title"@)
            + (if lookup_named(t.bands@, "detail"@) is Some { rows.len() * band_size(t, "detail"@) } else { 0 })
            + band_size(t, "summary"@),
{
    let (v1, f) = init_spec(vars, t.variables@);
    if f is None {
        if let Some(b) = lookup_named(t.bands@, "title"@) {
            lemma_band_len(v1, cursor, b.elements@, t.page.margins[0]);
        }
        if let Ok((els1, y1)) = title_spec(v1, t, cursor, t.page.margins[0]) {
            if let Some(b) = lookup_named(t.bands@, "detail"@) {
                lemma_detail_len(v1, t.variables@, b, rows, y1, cursor);
            }
            let (v2, d) = details_spec(v1, t, rows, y1, cursor);
            if let Ok((els2, y2, c2)) = d {
                if let Some(b) = lookup_named(t.bands@, "summary"@) {
                    lemma_band_len(v2, c2, b.elements@, y2);
                }
            }
        }
    }
}

/// The left edge of an element.
pub open spec fn element_x(el: Element) -> u32 {
    match el {
        Element::StaticText(st) => st.x,
        Element::TextField(tf) => tf.x,
    }
}

/// The top of an element within its band.
pub open spec fn element_y(el: Element) -> u32 {
    match el {
        Element::StaticText(st) => st.y,
        Element::TextField(tf) => tf.y,
    }
}

/// The width of an element.
pub open spec fn element_width(el: Element) -> u32 {
    match el {
        Element::StaticText(st) => st.width,
        Element::TextField(tf) => tf.width,
    }
}

/// The height of an element.
pub open spec fn element_height(el: Element) -> u32 {
    match el {
        Element::StaticText(st) => st.height,
        Element::TextField(tf) => tf.height,
    }
}

/// The style of an element.
pub open spec fn element_style(el: Element) -> crate::types::TextStyle {
    match el {
        Element::StaticText(st) => st.style,
        Element::TextField(tf) => tf.style,
    }
}

/// What a filled element shows, where the template says it outright: a static text its
/// text; a text field whose expression is a literal the expression, trimmed; a text field
/// that refers to a known variable that variable's value; one that refers to a field of the
/// current row that field's text.
pub open spec fn shows(vars: VarsView, row: Option<RowView>, el: Element, text: Seq<char>) -> bool {
    match el {
        Element::StaticText(st) => text == st.text@,
        Element::TextField(tf) => match spec_parse_expression(tf.expression@) {
            ExprView::Literal(_) => text == trim_ws(tf.expression@),
            ExprView::VariableRef(n) => lookup_named(vars, n) matches Some(c) ==> text == calc_text(c),
            ExprView::FieldRef(n) => match row {
                Some(r) => lookup_field(r, n) matches Some(t) ==> text == t,
                None => true,
            },
        },
    }
}

/// A filled band holds its elements in order, each at its own left edge and at the band's
/// offset plus its own top, with its own width, height and style, and showing what the
/// template says it shows.
pub proof fn law_band_fills_elements(vars: VarsView, row: Option<RowView>, els: Seq<Element>, y: u32)
    ensures
        fill_band_spec(vars, row, els, y) matches Ok(e) ==> e.len() == els.len() && forall|j: int| 0 <= j < els.len() ==> {
            &&& (#[trigger] e[j]).x == element_x(els[j])
            &&& e[j].y == y + element_y(els[j])
            &&& e[j].width == element_width(els[j])
            &&& e[j].height == element_height(els[j])
            &&& e[j].style == element_style(els[j])
            &&& shows(vars, row, els[j], e[j].text)
        },
    decreases els.len(),
{
    if els.len() > 0 {
        law_band_fills_elements(vars, row, els.drop_first(), y);
        if let Ok(e) = fill_band_spec(vars, row, els, y) {
            let rest = fill_band_spec(vars, row, els.drop_first(), y)->Ok_0;
            assert forall|j: int| 0 <= j < els.len() implies {
                &&& (#[trigger] e[j]).x == element_x(els[j])
                &&& e[j].y == y + element_y(els[j])
                &&& e[j].width == element_width(els[j])
                &&& e[j].height == element_height(els[j])
                &&& e[j].style == element_style(els[j])
                &&& shows(vars, row, els[j], e[j].text)
            } by {
                if j > 0 {
                    assert(e[j] == rest[j - 1]);
                    assert(els[j] == els.drop_first()[j - 1]);
                }
            }
        }
    }
}

proof fn lemma_band_places(vars: VarsView, row: Option<RowView>, els: Seq<Element>, y: u32)
    ensures
        fill_band_spec(vars, row, els, y) matches Ok(e) ==> e.len() == els.len() && forall|j: int|
            0 <= j < els.len() ==> (#[trigger] e[j]).y == y + element_y(els[j]) && e[j].x == element_x(els[j]),
    decreases els.len(),
{
    if els.len() > 0 {
        lemma_band_places(vars, row, els.drop_first(), y);
        if let Ok(e) = fill_band_spec(vars, row, els, y) {
            let rest = fill_band_spec(vars, row, els.drop_first(), y)->Ok_0;
            assert forall|j: int| 0 <= j < els.len() implies (#[trigger] e[j]).y == y + element_y(els[j]) && e[j].x == element_x(els[j]) by {
                if j > 0 {
                    assert(e[j] == rest[j - 1]);
                    assert(els[j] == els.drop_first()[j - 1]);
                }
            }
        }
    }
}

proof fn lemma_rows_stack(vars: VarsView, tvars: Seq<Variable>, band: Band, rows: Seq<RowView>, y: u32, cursor: Option<RowView>)
    ensures
        detail_spec(vars, tvars, band, rows, y, cursor).1 matches Ok((e, y2, _)) ==> {
            let n = band.elements@.len();
            &&& y2 == y + rows.len() * band.height
            &&& e.len() == rows.len() * n
            &&& forall|k: int, j: int| 0 <= k < rows.len() && 0 <= j < n ==> (#[trigger] e[k * n + j]).y
                == y + k * band.height + element_y(#[trigger] band.elements@[j])
                && e[k * n + j].x == element_x(band.elements@[j])
        },
    decreases rows.len(),
{
    let n = band.elements@.len();
    let h = band.height;
    if rows.len() > 0 {
        let row = Some(rows[0]);
        let (v1, f) = update_spec(vars, row, tvars);
        if f is None {
            lemma_band_places(v1, row, band.elements@, y);
            if let Ok(first) = fill_band_spec(v1, row, band.elements@, y) {
                if let Ok(y1) = below(y, h) {
                    lemma_rows_stack(v1, tvars, band, rows.drop_first(), y1, row);
                    lemma_detail_len(v1, tvars, band, rows.drop_first(), y1, row);
                    if let Ok((e, y2, c)) = detail_spec(vars, tvars, band, rows, y, cursor).1 {
                        let more = detail_spec(v1, tvars, band, rows.drop_first(), y1, row).1->Ok_0.0;
                        assert(e == first + more);
                        assert(y2 == y + rows.len() * h) by (nonlinear_arith)
                            requires
                                y2 == y1 + (rows.len() - 1) * h,
                                y1 == y + h,
                        {
                        }
                        assert(rows.len() * n == n + (rows.len() - 1) * n) by (nonlinear_arith);
                        assert forall|k: int, j: int| 0 <= k < rows.len() && 0 <= j < n implies (#[trigger] e[k * n + j]).y
                            == y + k * h + element_y(#[trigger] band.elements@[j])
                            && e[k * n + j].x == element_x(band.elements@[j]) by {
                            if k == 0 {
                                assert(k * n + j == j) by (nonlinear_arith)
                                    requires
                                        k == 0,
                                {
                                }
                                assert(e[j] == first[j]);
                            } else {
                                let k1 = k - 1;
                                assert(k * n + j == n + (k1 * n + j)) by (nonlinear_arith)
                                    requires
                                        k1 == k - 1,
                                {
                                }
                                assert(0 <= k1 * n + j < (rows.len() - 1) * n) by (nonlinear_arith)
                                    requires
                                        0 <= k1 < rows.len() - 1,
                                        0 <= j < n,
                                {
                                }
                                assert(e[k * n + j] == more[k1 * n + j]);
                                assert(more[k1 * n + j].y == y1 + k1 * h + element_y(band.elements@[j]));
                                assert(y1 + k1 * h == y + k * h) by (nonlinear_arith)
                                    requires
                                        y1 == y + h,
                                        k1 == k - 1,
                                {
                                }
                            }
                        }
                    }
                }
            }
        }
    }
}

/// Rows stack in the detail band: a layout that succeeds with a detail band of height `h`
/// places the copy of the band's `j`-th element for the `k`-th row `k * h` below the first
/// row's, at the same left edge, and goes on `n * h` below where the rows started.
pub proof fn law_rows_stack(vars: VarsView, tvars: Seq<Variable>, band: Band, rows: Seq<RowView>, y: u32, cursor: Option<RowView>)
    ensures
        detail_spec(vars, tvars, band, rows, y, cursor).1 matches Ok((e, y2, _)) ==> {
            let n = band.elements@.len();
            &&& y2 == y + rows.len() * band.height
            &&& e.len() == rows.len() * n
            &&& forall|k: int, j: int| 0 <= k < rows.len() && 0 <= j < n ==> (#[trigger] e[k * n + j]).y
                == y + k * band.height + element_y(#[trigger] band.elements@[j])
                && e[k * n + j].x == element_x(band.elements@[j])
        },
{
    lemma_rows_stack(vars, tvars, band, rows, y, cursor);
}

impl Default for LayoutEngine {
    fn default() -> (r: Self)
        ensures
            r@.len() == 0,
    {
        Self::new()
    }
}

/// The names of the variables of a template.
pub open spec fn variable_names(tvars: Seq<Variable>) -> Set<Seq<char>> {
    Set::new(|n: Seq<char>| exists|i: int| 0 <= i < tvars.len() && tvars[i].name@ == n)
}

/// An expression refers to no variable outside `names`.
pub open spec fn refers_within(e: ExprView, names: Set<Seq<char>>) -> bool {
    match e {
        ExprView::VariableRef(n) => names.contains(n),
        _ => true,
    }
}

/// An element refers to no variable outside `names`.
pub open spec fn element_refers_within(el: Element, names: Set<Seq<char>>) -> bool {
    match el {
        Element::TextField(tf) => refers_within(spec_parse_expression(tf.expression@), names),
        Element::StaticText(_) => true,
    }
}

/// No element of a band refers to a variable outside `names`.
pub open spec fn band_refers_within(els: Seq<Element>, names: Set<Seq<char>>) -> bool {
    forall|i: int| 0 <= i < els.len() ==> element_refers_within(#[trigger] els[i], names)
}

/// The variables of a template's expressions under `names`, each with its expression
/// referring to no variable outside `names`.
pub open spec fn variables_within(tvars: Seq<Variable>, names: Set<Seq<char>>) -> bool {
    forall|i: int| 0 <= i < tvars.len() ==> names.contains((#[trigger] tvars[i]).name@)
        && refers_within(spec_parse_expression(tvars[i].expression@), names)
}

/// Each variable that a template refers to, in a variable's expression or in a text field
/// of its title, detail or summary band, is one of its own variables.
pub open spec fn refers_to_own_variables(t: Template) -> bool {
    let names = variable_names(t.variables@);
    &&& variables_within(t.variables@, names)
    &&& (lookup_named(t.bands@, "title"@) matches Some(b) ==> band_refers_within(b.elements@, names))
    &&& (lookup_named(t.bands@, "detail"@) matches Some(b) ==> band_refers_within(b.elements@, names))
    &&& (lookup_named(t.bands@, "summary"@) matches Some(b) ==> band_refers_within(b.elements@, names))
}

/// Two sets of variables hold the same calculators under each of `names`.
pub open spec fn agree(v1: VarsView, v2: VarsView, names: Set<Seq<char>>) -> bool {
    forall|n: Seq<char>| names.contains(n) ==> #[trigger] lookup_named(v1, n) == lookup_named(v2, n)
}

proof fn lemma_agree_put(v1: VarsView, v2: VarsView, names: Set<Seq<char>>, name: Seq<char>, c: CalcView)
    requires
        agree(v1, v2, names),
    ensures
        agree(put_named(v1, name, c), put_named(v2, name, c), names.insert(name)),
{
    assert forall|n: Seq<char>| names.insert(name).contains(n) implies #[trigger] lookup_named(put_named(v1, name, c), n)
        == lookup_named(put_named(v2, name, c), n) by {
        lemma_lookup_put(v1, name, c, n);
        lemma_lookup_put(v2, name, c, n);
    }
}

/// Setting up the variables fails alike, and leaves two sets of variables agreeing on the
/// names they agreed on and on the template's variables.
proof fn lemma_init_agree(v1: VarsView, v2: VarsView, tvars: Seq<Variable>, names: Set<Seq<char>>)
    requires
        agree(v1, v2, names),
    ensures
        init_spec(v1, tvars).1 == init_spec(v2, tvars).1,
        init_spec(v1, tvars).1 is None ==> agree(init_spec(v1, tvars).0, init_spec(v2, tvars).0, names + variable_names(tvars)),
    decreases tvars.len(),
{
    if tvars.len() == 0 {
        assert forall|n: Seq<char>| (names + variable_names(tvars)).contains(n) implies names.contains(n) by {}
    } else if let Some(k) = calculation_of(tvars[0].calculation@) {
        let n0 = tvars[0].name@;
        let c = fresh_calc(n0, k);
        lemma_agree_put(v1, v2, names, n0, c);
        let rest = tvars.drop_first();
        lemma_init_agree(put_named(v1, n0, c), put_named(v2, n0, c), rest, names.insert(n0));
        assert forall|n: Seq<char>| (names + variable_names(tvars)).contains(n)
            implies (names.insert(n0) + variable_names(rest)).contains(n) by {
            if variable_names(tvars).contains(n) && !names.contains(n) && n != n0 {
                let i = choose|i: int| 0 <= i < tvars.len() && tvars[i].name@ == n;
                assert(rest[i - 1].name@ == n);
            }
        }
    }
}

proof fn lemma_eval_agree(v1: VarsView, v2: VarsView, names: Set<Seq<char>>, row: Option<RowView>, e: ExprView)
    requires
        agree(v1, v2, names),
        refers_within(e, names),
    ensures
        eval_spec(v1, row, e) == eval_spec(v2, row, e),
{
    if let ExprView::VariableRef(n) = e {
        assert(lookup_named(v1, n) == lookup_named(v2, n));
    }
}

proof fn lemma_update_agree(v1: VarsView, v2: VarsView, names: Set<Seq<char>>, row: Option<RowView>, tvars: Seq<Variable>)
    requires
        agree(v1, v2, names),
        variables_within(tvars, names),
    ensures
        update_spec(v1, row, tvars).1 == update_spec(v2, row, tvars).1,
        agree(update_spec(v1, row, tvars).0, update_spec(v2, row, tvars).0, names),
    decreases tvars.len(),
{
    if tvars.len() > 0 {
        let tv = tvars[0];
        assert(names.contains(tv.name@));
        lemma_eval_agree(v1, v2, names, row, spec_parse_expression(tv.expression@));
        assert(lookup_named(v1, tv.name@) == lookup_named(v2, tv.name@));
        let (w1, f1) = update_one_spec(v1, row, tv);
        let (w2, f2) = update_one_spec(v2, row, tv);
        assert(f1 == f2);
        if let Ok(text) = eval_spec(v1, row, spec_parse_expression(tv.expression@)) {
            if let Some(c) = lookup_named(v1, tv.name@) {
                if let Some(v) = decimal_from_str(text) {
                    if update_in_range(c, v) {
                        lemma_agree_put(v1, v2, names, tv.name@, apply_update(c, v));
                        assert(names.insert(tv.name@) =~= names);
                    }
                }
            }
        }
        assert(agree(w1, w2, names));
        let rest = tvars.drop_first();
        assert(variables_within(rest, names)) by {
            assert forall|i: int| 0 <= i < rest.len() implies names.contains((#[trigger] rest[i]).name@)
                && refers_within(spec_parse_expression(rest[i].expression@), names) by {
                assert(rest[i] == tvars[i + 1]);
            }
        }
        if f1 is None {
            lemma_update_agree(w1, w2, names, row, rest);
        }
    }
}

proof fn lemma_band_agree(v1: VarsView, v2: VarsView, names: Set<Seq<char>>, row: Option<RowView>, els: Seq<Element>, y: u32)
    requires
        agree(v1, v2, names),
        band_refers_within(els, names),
    ensures
        fill_band_spec(v1, row, els, y) == fill_band_spec(v2, row, els, y),
    decreases els.len(),
{
    if els.len() > 0 {
        assert(element_refers_within(els[0], names));
        if let Element::TextField(tf) = els[0] {
            lemma_eval_agree(v1, v2, names, row, spec_parse_expression(tf.expression@));
        }
        let rest = els.drop_first();
        assert(band_refers_within(rest, names)) by {
            assert forall|i: int| 0 <= i < rest.len() implies element_refers_within(#[trigger] rest[i], names) by {
                assert(rest[i] == els[i + 1]);
            }
        }
        lemma_band_agree(v1, v2, names, row, rest, y);
    }
}

proof fn lemma_detail_agree(
    v1: VarsView,
    v2: VarsView,
    names: Set<Seq<char>>,
    tvars: Seq<Variable>,
    band: Band,
    rows: Seq<RowView>,
    y: u32,
    cursor: Option<RowView>,
)
    requires
        agree(v1, v2, names),
        variables_within(tvars, names),
        band_refers_within(band.elements@, names),
    ensures
        detail_spec(v1, tvars, band, rows, y, cursor).1 == detail_spec(v2, tvars, band, rows, y, cursor).1,
        agree(detail_spec(v1, tvars, band, rows, y, cursor).0, detail_spec(v2, tvars, band, rows, y, cursor).0, names),
    decreases rows.len(),
{
    if rows.len() > 0 {
        let row = Some(rows[0]);
        lemma_update_agree(v1, v2, names, row, tvars);
        let w1 = update_spec(v1, row, tvars).0;
        let w2 = update_spec(v2, row, tvars).0;
        lemma_band_agree(w1, w2, names, row, band.elements@, y);
        if let Ok(y1) = below(y, band.height) {
            lemma_detail_agree(w1, w2, names, tvars, band, rows.drop_first(), y1, row);
        }
    }
}

/// Each layout starts afresh: where a template refers only to its own variables, its layout
/// gives the same outcome whatever the engine held before (the calculators of an earlier
/// layout, say) as on a new engine; totals never carry over from one layout to the next.
pub proof fn law_layout_starts_afresh(v1: VarsView, v2: VarsView, t: Template, cursor: Option<RowView>, rows: Seq<RowView>)
    requires
        refers_to_own_variables(t),
    ensures
        layout_spec(v1, t, cursor, rows).1 == layout_spec(v2, t, cursor, rows).1,
{
    let names = variable_names(t.variables@);
    assert(agree(v1, v2, Set::<Seq<char>>::empty()));
    lemma_init_agree(v1, v2, t.variables@, Set::<Seq<char>>::empty());
    let (w1, f) = init_spec(v1, t.variables@);
    let w2 = init_spec(v2, t.variables@).0;
    if f is None {
        assert(Set::<Seq<char>>::empty() + names =~= names);
        let y0 = t.page.margins[0];
        if let Some(b) = lookup_named(t.bands@, "title"@) {
            lemma_band_agree(w1, w2, names, cursor, b.elements@, y0);
        }
        if let Ok((els1, y1)) = title_spec(w1, t, cursor, y0) {
            if let Some(b) = lookup_named(t.bands@, "detail"@) {
                lemma_detail_agree(w1, w2, names, t.variables@, b, rows, y1, cursor);
            }
            let (u1, d) = details_spec(w1, t, rows, y1, cursor);
            let u2 = details_spec(w2, t, rows, y1, cursor).0;
            if let Ok((els2, y2, c2)) = d {
                if let Some(b) = lookup_named(t.bands@, "summary"@) {
                    lemma_band_agree(u1, u2, names, c2, b.elements@, y2);
                }
            }
        }
    }
}

/// The height that the title band takes: its own, or none without one.
pub open spec fn title_height(t: Template) -> int {
    match lookup_named(t.bands@, "title"@) {
        Some(b) => b.height as int,
        None => 0,
    }
}

/// A layout starts at the top margin: a layout that succeeds places the title band's
/// elements first, each at its own left edge, at the top margin (`margins[0]`) plus its own
/// top, with its own size and style and showing what the template says; and the elements
/// of the first detail row right after them, at the top margin plus the title band's height
/// plus their own top.
pub proof fn law_title_at_top_margin(vars: VarsView, t: Template, cursor: Option<RowView>, rows: Seq<RowView>)
    ensures
        layout_spec(vars, t, cursor, rows).1 matches Ok(els) ==> {
            &&& (lookup_named(t.bands@, "title"@) matches Some(b) ==> forall|j: int| 0 <= j < b.elements@.len() ==> {
                &&& (#[trigger] els[j]).y == t.page.margins[0] + element_y(b.elements@[j])
                &&& els[j].x == element_x(b.elements@[j])
                &&& els[j].width == element_width(b.elements@[j])
                &&& els[j].height == element_height(b.elements@[j])
                &&& els[j].style == element_style(b.elements@[j])
                &&& shows(init_spec(vars, t.variables@).0, cursor, b.elements@[j], els[j].text)
            })
            &&& (lookup_named(t.bands@, "detail"@) matches Some(d) ==> (rows.len() > 0 ==> forall|j: int|
                0 <= j < d.elements@.len() ==> (#[trigger] els[band_size(t, "title"@) + j]).y
                    == t.page.margins[0] + title_height(t) + element_y(d.elements@[j])))
        },
{
    let (v1, f) = init_spec(vars, t.variables@);
    let m0 = t.page.margins[0];
    if f is None {
        if let Some(b) = lookup_named(t.bands@, "title"@) {
            law_band_fills_elements(v1, cursor, b.elements@, m0);
        }
        if let Ok((els1, y1)) = title_spec(v1, t, cursor, m0) {
            assert(els1.len() == band_size(t, "title"@));
            assert(y1 == m0 + title_height(t));
            let (v2, d) = details_spec(v1, t, rows, y1, cursor);
            if let Ok((els2, y2, c2)) = d {
                if let Ok(els3) = summary_spec(v2, t, c2, y2) {
                    let all = els1 + els2 + els3;
                    assert forall|j: int| 0 <= j < els1.len() implies #[trigger] all[j] == els1[j] by {}
                    if let Some(db) = lookup_named(t.bands@, "detail"@) {
                        if rows.len() > 0 {
                            lemma_rows_stack(v1, t.variables@, db, rows, y1, cursor);
                            let n = db.elements@.len();
                            assert forall|j: int| 0 <= j < n implies (#[trigger] all[band_size(t, "title"@) + j]).y
                                == m0 + title_height(t) + element_y(db.elements@[j]) by {
                                assert(0 * n + j == j);
                                assert(els2[0 * n + j].y == y1 + 0 * db.height + element_y(db.elements@[j]));
                                assert(j < rows.len() * n) by (nonlinear_arith)
                                    requires
                                        0 <= j < n,
                                        rows.len() > 0,
                                {
                                }
                                assert(all[els1.len() + j] == els2[j]);
                            }
                        }
                    }
                }
            }
        }
    }
}

/// Setting up variables whose names differ from `n` leaves the calculator under `n` alone.
proof fn lemma_init_keeps(vars: VarsView, tvars: Seq<Variable>, n: Seq<char>)
    requires
        forall|j: int| 0 <= j < tvars.len() ==> (#[trigger] tvars[j]).name@ != n,
    ensures
        lookup_named(init_spec(vars, tvars).0, n) == lookup_named(vars, n),
    decreases tvars.len(),
{
    if tvars.len() > 0 {
        if let Some(k) = calculation_of(tvars[0].calculation@) {
            let c = fresh_calc(tvars[0].name@, k);
            lemma_lookup_put(vars, tvars[0].name@, c, n);
            let rest = tvars.drop_first();
            assert forall|j: int| 0 <= j < rest.len() implies (#[trigger] rest[j]).name@ != n by {
                assert(rest[j] == tvars[j + 1]);
            }
            lemma_init_keeps(put_named(vars, tvars[0].name@, c), rest, n);
        }
    }
}

/// Setting up gives each variable the calculation that the template names: after a setup
/// that succeeds, every variable of the template names a known calculation, and the
/// calculator under the name of each variable (the last one, where a name repeats) is a
/// fresh one of that calculation: the template's name, the named kind, no updates and
/// a zero value.
pub proof fn law_setup_gives_named_calculations(vars: VarsView, tvars: Seq<Variable>)
    ensures
        init_spec(vars, tvars).1 is None ==> forall|i: int| 0 <= i < tvars.len() ==> {
            &&& calculation_of((#[trigger] tvars[i]).calculation@) is Some
            &&& (forall|j: int| i < j < tvars.len() ==> tvars[j].name@ != tvars[i].name@) ==> {
                &&& lookup_named(init_spec(vars, tvars).0, tvars[i].name@) matches Some(c)
                &&& c.kind == calculation_of(tvars[i].calculation@).unwrap()
                &&& c.name == tvars[i].name@
                &&& c.count == 0
                &&& c.value.mantissa == 0
            }
        },
    decreases tvars.len(),
{
    if tvars.len() > 0 {
        if let Some(k) = calculation_of(tvars[0].calculation@) {
            let n0 = tvars[0].name@;
            let c = fresh_calc(n0, k);
            let v1 = put_named(vars, n0, c);
            let rest = tvars.drop_first();
            law_setup_gives_named_calculations(v1, rest);
            if init_spec(vars, tvars).1 is None {
                assert forall|i: int| 0 <= i < tvars.len() implies {
                    &&& calculation_of((#[trigger] tvars[i]).calculation@) is Some
                    &&& (forall|j: int| i < j < tvars.len() ==> tvars[j].name@ != tvars[i].name@) ==> {
                        &&& lookup_named(init_spec(vars, tvars).0, tvars[i].name@) matches Some(c)
                        &&& c.kind == calculation_of(tvars[i].calculation@).unwrap()
                        &&& c.name == tvars[i].name@
                        &&& c.count == 0
                        &&& c.value.mantissa == 0
                    }
                } by {
                    if i == 0 {
                        if forall|j: int| i < j < tvars.len() ==> tvars[j].name@ != tvars[i].name@ {
                            assert forall|j: int| 0 <= j < rest.len() implies (#[trigger] rest[j]).name@ != n0 by {
                                assert(rest[j] == tvars[j + 1]);
                            }
                            lemma_init_keeps(v1, rest, n0);
                            lemma_lookup_put(vars, n0, c, n0);
                        }
                    } else {
                        assert(tvars[i] == rest[i - 1]);
                        if forall|j: int| i < j < tvars.len() ==> tvars[j].name@ != tvars[i].name@ {
                            assert forall|j: int| i - 1 < j < rest.len() implies (#[trigger] rest[j]).name@ != rest[i - 1].name@ by {
                                assert(rest[j] == tvars[j + 1]);
                            }
                        }
                    }
                }
            }
        }
    }
}

/// How far the detail rows reach down: the detail band's height once per row, or nothing
/// without a detail band.
pub open spec fn details_height(t: Template, rows: nat) -> int {
    match lookup_named(t.bands@, "detail"@) {
        Some(b) => rows * b.height,
        None => 0,
    }
}

/// How many texts the detail rows give.
pub open spec fn details_size(t: Template, rows: nat) -> int {
    match lookup_named(t.bands@, "detail"@) {
        Some(b) => (rows * b.elements@.len()) as int,
        None => 0,
    }
}

/// The summary comes last, below every row: a layout that succeeds places the summary
/// band's elements after the texts of the title and of every detail row, each at its own
/// left edge, at the top margin plus the title band's height plus the detail band's height
/// once per row plus its own top, with its own size and style.
pub proof fn law_summary_below_rows(vars: VarsView, t: Template, cursor: Option<RowView>, rows: Seq<RowView>)
    ensures
        layout_spec(vars, t, cursor, rows).1 matches Ok(els) ==> (lookup_named(t.bands@, "summary"@) matches Some(b)
            ==> {
            let base = band_size(t, "title"@) + details_size(t, rows.len());
            &&& els.len() == base + b.elements@.len()
            &&& forall|j: int| 0 <= j < b.elements@.len() ==> {
                &&& (#[trigger] els[base + j]).y == t.page.margins[0] + title_height(t) + details_height(t, rows.len())
                    + element_y(b.elements@[j])
                &&& els[base + j].x == element_x(b.elements@[j])
                &&& els[base + j].width == element_width(b.elements@[j])
                &&& els[base + j].height == element_height(b.elements@[j])
                &&& els[base + j].style == element_style(b.elements@[j])
            }
        }),
{
    let (v1, f) = init_spec(vars, t.variables@);
    let m0 = t.page.margins[0];
    if f is None {
        if let Some(b) = lookup_named(t.bands@, "title"@) {
            lemma_band_len(v1, cursor, b.elements@, m0);
        }
        if let Ok((els1, y1)) = title_spec(v1, t, cursor, m0) {
            assert(els1.len() == band_size(t, "title"@));
            assert(y1 == m0 + title_height(t));
            let (v2, d) = details_spec(v1, t, rows, y1, cursor);
            if let Some(db) = lookup_named(t.bands@, "detail"@) {
                lemma_rows_stack(v1, t.variables@, db, rows, y1, cursor);
            }
            if let Ok((els2, y2, c2)) = d {
                assert(els2.len() == details_size(t, rows.len()));
                assert(y2 == y1 + details_height(t, rows.len()));
                if let Some(sb) = lookup_named(t.bands@, "summary"@) {
                    law_band_fills_elements(v2, c2, sb.elements@, y2);
                    if let Ok(els3) = summary_spec(v2, t, c2, y2) {
                        let all = els1 + els2 + els3;
                        let base = els1.len() + els2.len();
                        assert forall|j: int| 0 <= j < els3.len() implies #[trigger] all[base + j] == els3[j] by {}
                    }
                }
            }
        }
    }
}

} // verus!
