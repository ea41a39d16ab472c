//! XJasper: a report engine that fills banded templates with rows of data
//! and lays the result out on a page, with decimal aggregation of variables.

pub mod text;
pub mod expression;
pub mod decimal;
pub mod variables;
pub mod json;
pub mod datasource;
pub mod types;
pub mod template;
pub mod filled;
pub mod layout;
pub mod pdf;
pub mod engine;

pub use datasource::{DataSource, DataSourceError, JsonDataSource};
pub use engine::ReportEngine;
pub use expression::{parse_expression, Expression, ExpressionError};
pub use filled::{FilledDocument, FilledElement, FilledPage, FilledText};
pub use layout::{LayoutEngine, LayoutError};
pub use pdf::{PdfError, PdfPlan, PdfRenderer, PdfText};
pub use template::{validate_template, TemplateError};
pub use types::{Band, BandMap, Element, Field, PageConfig, StaticText, Template, TextField, TextStyle, Variable};
pub use variables::{CalculationType, VariableCalculator, VariableError};
