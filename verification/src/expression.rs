//! Expressions of a template: field references, variable references and literals.
use vstd::prelude::*;
use vstd::string::*;
use crate::text::{all_white_space, join, lemma_trim_idempotent, lemma_trim_padded, trim, trim_ws};

verus! {

/// A parsed expression.
#[derive(Debug, Clone, PartialEq)]
pub enum Expression {
    /// Field reference: `$F{fieldName}`
    FieldRef(String),
    /// Variable reference: `$V{variableName}`
    VariableRef(String),
    /// Static string literal
    Literal(String),
}

/// The mathematical value of an [`Expression`].
pub enum ExprView {
    FieldRef(Seq<char>),
    VariableRef(Seq<char>),
    Literal(Seq<char>),
}

impl View for Expression {
    type V = ExprView;

    open spec fn view(&self) -> ExprView {
        match self {
            Expression::FieldRef(s) => ExprView::FieldRef(s@),
            Expression::VariableRef(s) => ExprView::VariableRef(s@),
            Expression::Literal(s) => ExprView::Literal(s@),
        }
    }
}

/// Errors of expression parsing.
#[derive(Debug)]
pub enum ExpressionError {
    SyntaxError(String),
}

impl ExpressionError {
    /// The text of this error.
    pub fn message(&self) -> (r: String)
        ensures
            match self {
                ExpressionError::SyntaxError(s) => r@ == "Invalid expression syntax: "@ + s@,
            },
    {
        match self {
            ExpressionError::SyntaxError(s) => join("Invalid expression syntax: ", s.as_str()),
        }
    }
}

/// The name inside `$<tag>{name}` when `t` has that form: it starts with `$`, the tag
/// and `{`, and ends with `}`.
pub open spec fn reference_name(t: Seq<char>, tag: char) -> Option<Seq<char>> {
    if t.len() >= 3 && t[0] == '$' && t[1] == tag && t[2] == '{' && t.last() == '}' {
        Some(t.subrange(3, t.len() - 1))
    } else {
        None
    }
}

/// What an expression text means, once trimmed: a field reference, else a variable
/// reference, else the trimmed text as a literal.
pub open spec fn spec_parse_expression(s: Seq<char>) -> ExprView {
    let t = trim_ws(s);
    match reference_name(t, 'F') {
        Some(n) => ExprView::FieldRef(n),
        None => match reference_name(t, 'V') {
            Some(n) => ExprView::VariableRef(n),
            None => ExprView::Literal(t),
        },
    }
}

/// Parse an expression string. Every text is an expression, so this never fails.
pub fn parse_expression(expr: &str) -> (r: Result<Expression, ExpressionError>)
    ensures
        r matches Ok(e) && e@ == spec_parse_expression(expr@),
{
    let trimmed = trim(expr);
    if let Some(field_name) = parse_field_ref(trimmed) {
        return Ok(Expression::FieldRef(field_name));
    }
    if let Some(var_name) = parse_variable_ref(trimmed) {
        return Ok(Expression::VariableRef(var_name));
    }
    Ok(Expression::Literal(trimmed.to_owned()))
}

/// The name inside `$<tag>{name}`, when `expr` has that form.
fn parse_reference(expr: &str, tag: char) -> (r: Option<String>)
    ensures
        match reference_name(expr@, tag) {
            Some(n) => r matches Some(s) && s@ == n,
            None => r is None,
        },
{
    let n = expr.unicode_len();
    if n >= 3 && expr.get_char(0) == '$' && expr.get_char(1) == tag && expr.get_char(2) == '{'
        && expr.get_char(n - 1) == '}' {
        let inner = expr.substring_char(3, n - 1);
        Some(inner.to_owned())
    } else {
        None
    }
}

/// Parse field reference: `$F{fieldName}`
fn parse_field_ref(expr: &str) -> (r: Option<String>)
    ensures
        match reference_name(expr@, 'F') {
            Some(n) => r matches Some(s) && s@ == n,
            None => r is None,
        },
{
    parse_reference(expr, 'F')
}

/// Parse variable reference: `$V{variableName}`
fn parse_variable_ref(expr: &str) -> (r: Option<String>)
    ensures
        match reference_name(expr@, 'V') {
            Some(n) => r matches Some(s) && s@ == n,
            None => r is None,
        },
{
    parse_reference(expr, 'V')
}

/// White space around an expression does not change what it means: parsing a text and
/// parsing it trimmed give the same expression.
pub proof fn law_parse_ignores_surrounding_space(s: Seq<char>)
    ensures
        spec_parse_expression(trim_ws(s)) == spec_parse_expression(s),
{
    lemma_trim_idempotent(s);
}

/// White space added around an expression does not change what it means.
pub proof fn law_parse_ignores_added_space(pre: Seq<char>, s: Seq<char>, post: Seq<char>)
    requires
        all_white_space(pre),
        all_white_space(post),
    ensures
        spec_parse_expression(pre + s + post) == spec_parse_expression(s),
{
    lemma_trim_padded(pre, s, post);
    law_parse_ignores_surrounding_space(pre + s + post);
    law_parse_ignores_surrounding_space(s);
}

} // verus!
