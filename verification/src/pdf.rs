//! What a PDF of a filled document holds. Drawing it, in millimetres, is done by `printpdf`.
use vstd::prelude::*;
use vstd::string::*;
use crate::filled::{FilledDocument, FilledElement, TextView};
use crate::text::join;

verus! {

/// Errors of PDF generation.
#[derive(Debug)]
pub enum PdfError {
    GenerationError(String),
}

impl PdfError {
    /// The text of this error.
    pub fn message(&self) -> (r: String)
        ensures
            match self {
                PdfError::GenerationError(s) => r@ == "PDF generation error: "@ + s@,
            },
    {
        match self {
            PdfError::GenerationError(s) => join("PDF generation error: ", s.as_str()),
        }
    }
}

/// A text to draw: its left edge and the bottom of its box measured up from the bottom of
/// the page, in points, its font size and its text.
#[derive(Debug, Clone)]
pub struct PdfText {
    pub x: u32,
    pub y: u32,
    pub font_size: u32,
    pub text: String,
}

/// The page to draw, in points, and the texts on it.
#[derive(Debug, Clone)]
pub struct PdfPlan {
    pub width: u32,
    pub height: u32,
    pub texts: Vec<PdfText>,
}

/// The font size used where a style gives none.
pub open spec fn default_font_size() -> u32 {
    12
}

/// The texts of a page fit in its height, so that their distance from the bottom is defined.
pub open spec fn fits_page(elements: Seq<TextView>, height: u32) -> bool {
    forall|i: int| 0 <= i < elements.len() ==> #[trigger] elements[i].y + elements[i].height <= height
}

/// How a placed text is drawn on a page of height `page_height`: the origin of the PDF page
/// is its bottom left corner.
pub open spec fn pdf_text_matches(p: PdfText, t: TextView, page_height: u32) -> bool {
    &&& p.x == t.x
    &&& p.y == page_height - t.y - t.height
    &&& p.font_size == match t.style.font_size {
        Some(s) => s,
        None => default_font_size(),
    }
    &&& p.text@ == t.text
}

pub struct PdfRenderer;

impl PdfRenderer {
    pub fn new() -> (r: Self) {
        PdfRenderer
    }

    /// What the PDF of `doc` holds: its first page, with each of its texts.
    /// A document without pages is an error.
    pub fn plan(&self, doc: &FilledDocument) -> (r: Result<PdfPlan, PdfError>)
        requires
            doc@.len() > 0 ==> fits_page(doc@[0].elements, doc@[0].height),
        ensures
            doc@.len() == 0 ==> (r matches Err(PdfError::GenerationError(m)) && m@ == "No pages to render"@),
            doc@.len() > 0 ==> (r matches Ok(p) && p.width == doc@[0].width && p.height == doc@[0].height
                && p.texts@.len() == doc@[0].elements.len()
                && forall|i: int| 0 <= i < p.texts@.len() ==> pdf_text_matches(#[trigger] p.texts@[i], doc@[0].elements[i], p.height)),
    {
        if doc.pages.len() == 0 {
            return Err(PdfError::GenerationError(String::from_str("No pages to render")));
        }
        let first_page = &doc.pages[0];
        let ghost elements = doc@[0].elements;
        let mut texts: Vec<PdfText> = Vec::new();
        let mut i: usize = 0;
        while i < first_page.elements.len()
            invariant
                i <= first_page.elements@.len(),
                elements == first_page@.elements,
                fits_page(elements, first_page.height),
                texts@.len() == i,
                forall|k: int| 0 <= k < i ==> pdf_text_matches(#[trigger] texts@[k], elements[k], first_page.height),
            decreases first_page.elements@.len() - i,
        {
            assert(elements[i as int] == first_page.elements@[i as int]@);
            let t = self.text_of(&first_page.elements[i], first_page.height);
            texts.push(t);
            i = i + 1;
        }
        Ok(PdfPlan { width: first_page.width, height: first_page.height, texts })
    }

    /// How one element is drawn on a page of height `page_height`.
    fn text_of(&self, element: &FilledElement, page_height: u32) -> (r: PdfText)
        requires
            element@.y + element@.height <= page_height,
        ensures
            pdf_text_matches(r, element@, page_height),
    {
        match element {
            FilledElement::Text(text) => {
                let font_size = match text.style.font_size {
                    Some(s) => s,
                    None => 12,
                };
                PdfText {
                    x: text.x,
                    y: page_height - text.y - text.height,
                    font_size,
                    text: text.text.clone(),
                }
            },
        }
    }
}

impl Default for PdfRenderer {
    fn default() -> (r: Self) {
        Self::new()
    }
}

} // verus!
