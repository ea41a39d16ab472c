//! Template validation.
use vstd::prelude::*;
use vstd::string::*;
use crate::text::{has_prefix, join, same_text};
use crate::types::Template;

verus! {

/// Errors of template reading.
#[derive(Debug)]
pub enum TemplateError {
    JsonError(serde_json::Error),
    ValidationError(String),
}

impl TemplateError {
    /// The text of this error.
    pub fn message(&self) -> (r: String)
        ensures
            match self {
                TemplateError::JsonError(_) => has_prefix(r@, "Failed to parse JSON: "@),
                TemplateError::ValidationError(s) => r@ == "Invalid template: "@ + s@,
            },
    {
        match self {
            TemplateError::JsonError(e) => {
                let detail = e.to_string();
                let r = join("Failed to parse JSON: ", detail.as_str());
                proof {
                    assert(r@.take("Failed to parse JSON: "@.len() as int) =~= "Failed to parse JSON: "@);
                }
                r
            },
            TemplateError::ValidationError(s) => join("Invalid template: ", s.as_str()),
        }
    }
}

/// The version of the template format that is supported.
pub open spec fn supported_version() -> Seq<char> {
    "0.1"@
}

/// Validate template structure: its version must be `0.1`, and then its page must have a
/// positive width and height.
pub fn validate_template(template: &Template) -> (r: Result<(), TemplateError>)
    ensures
        template.version@ != supported_version() ==> (r matches Err(TemplateError::ValidationError(m))
            && m@ == "Unsupported version: "@ + template.version@),
        template.version@ == supported_version() && (template.page.width == 0 || template.page.height == 0)
            ==> (r matches Err(TemplateError::ValidationError(m))
            && m@ == "Page width and height must be greater than 0"@),
        template.version@ == supported_version() && template.page.width > 0 && template.page.height > 0
            ==> r is Ok,
{
    if !same_text(template.version.as_str(), "0.1") {
        return Err(
            TemplateError::ValidationError(join("Unsupported version: ", template.version.as_str())),
        );
    }
    if template.page.width == 0 || template.page.height == 0 {
        return Err(
            TemplateError::ValidationError(
                String::from_str("Page width and height must be greater than 0"),
            ),
        );
    }
    Ok(())
}

} // verus!
