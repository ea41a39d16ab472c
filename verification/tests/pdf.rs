use xjasper::filled::{FilledDocument, FilledElement, FilledPage, FilledText};
use xjasper::pdf::{PdfError, PdfRenderer};
use xjasper::types::TextStyle;
use xjasper::ReportEngine;

fn text(x: u32, y: u32, height: u32, size: Option<u32>, s: &str) -> FilledElement {
    FilledElement::Text(FilledText {
        x,
        y,
        width: 50,
        height,
        text: s.to_string(),
        style: TextStyle { font_size: size, font_weight: None, align: None },
    })
}

#[test]
fn plan_measures_from_the_bottom() {
    let mut page = FilledPage::new(595, 842);
    page.add_element(text(10, 40, 20, None, "Invoice"));
    page.add_element(text(300, 822, 20, Some(9), "bottom"));
    let mut doc = FilledDocument::new();
    doc.add_page(page);
    let plan = PdfRenderer::new().plan(&doc).unwrap();
    assert_eq!((plan.width, plan.height), (595, 842));
    assert_eq!(plan.texts.len(), 2);
    assert_eq!((plan.texts[0].x, plan.texts[0].y, plan.texts[0].font_size), (10, 782, 12));
    assert_eq!(plan.texts[0].text, "Invoice");
    assert_eq!((plan.texts[1].x, plan.texts[1].y, plan.texts[1].font_size), (300, 0, 9));
}

#[test]
fn only_the_first_page_is_planned() {
    let mut doc = FilledDocument::new();
    let mut first = FilledPage::new(100, 100);
    first.add_element(text(0, 0, 10, None, "one"));
    doc.add_page(first);
    let mut second = FilledPage::new(200, 200);
    second.add_element(text(0, 0, 10, None, "two"));
    second.add_element(text(0, 0, 10, None, "three"));
    doc.add_page(second);
    let plan = PdfRenderer::default().plan(&doc).unwrap();
    assert_eq!(plan.width, 100);
    assert_eq!(plan.texts.len(), 1);
    assert_eq!(plan.texts[0].y, 90);
}

#[test]
fn document_without_pages_is_an_error() {
    match PdfRenderer::new().plan(&FilledDocument::new()) {
        Err(e @ PdfError::GenerationError(_)) => {
            assert_eq!(e.message(), "PDF generation error: No pages to render")
        }
        Ok(_) => panic!("planned an empty document"),
    }
}

#[test]
fn engine_builds() {
    let _ = ReportEngine::new();
    let _ = ReportEngine::default();
}
