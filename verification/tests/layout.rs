use xjasper::datasource::{DataSource, JsonDataSource};
use xjasper::filled::{FilledDocument, FilledElement, FilledPage, FilledText};
use xjasper::layout::{LayoutEngine, LayoutError};
use xjasper::types::{Band, BandMap, Element, PageConfig, StaticText, Template, TextField, TextStyle, Variable};

fn static_text(x: u32, y: u32, text: &str) -> Element {
    Element::StaticText(StaticText { x, y, width: 100, height: 20, text: text.to_string(), style: TextStyle::default() })
}

fn text_field(x: u32, y: u32, expression: &str) -> Element {
    Element::TextField(TextField {
        x,
        y,
        width: 100,
        height: 20,
        expression: expression.to_string(),
        style: TextStyle { font_size: Some(10), font_weight: Some("bold".to_string()), align: None },
    })
}

fn variable(name: &str, calculation: &str, expression: &str) -> Variable {
    Variable {
        name: name.to_string(),
        var_type: "decimal".to_string(),
        calculation: calculation.to_string(),
        expression: expression.to_string(),
    }
}

fn invoice() -> Template {
    let mut bands = BandMap::new();
    bands.insert(
        "title".to_string(),
        Band { height: 50, elements: vec![static_text(0, 0, "Invoice"), static_text(0, 25, "-------")] },
    );
    bands.insert(
        "detail".to_string(),
        Band { height: 20, elements: vec![text_field(0, 0, "$F{customerName}"), text_field(300, 0, "$F{amount}")] },
    );
    bands.insert(
        "summary".to_string(),
        Band { height: 30, elements: vec![static_text(200, 10, "Total:"), text_field(300, 10, "$V{total}")] },
    );
    Template {
        name: "simple-invoice".to_string(),
        version: "0.1".to_string(),
        page: PageConfig { width: 595, height: 842, margins: [40, 40, 40, 40] },
        fields: Vec::new(),
        variables: vec![variable("total", "Sum", "$F{amount}")],
        bands,
    }
}

const DATA: &str = r#"[
  { "customerName": "Alice Johnson", "amount": "100.50" },
  { "customerName": "Bob Smith", "amount": "200.75" },
  { "customerName": "Charlie Brown", "amount": "150.25" }
]"#;

fn texts(doc: &FilledDocument) -> Vec<(u32, u32, String)> {
    doc.pages[0]
        .elements
        .iter()
        .map(|e| match e {
            FilledElement::Text(t) => (t.x, t.y, t.text.clone()),
        })
        .collect()
}

#[test]
fn invoice_report_lists_rows_and_total() {
    let mut engine = LayoutEngine::new();
    let mut ds = JsonDataSource::new(DATA).unwrap();
    let doc = engine.layout(&invoice(), &mut ds).unwrap();
    assert_eq!(doc.pages.len(), 1);
    assert_eq!(doc.pages[0].width, 595);
    assert_eq!(doc.pages[0].height, 842);
    let expected: Vec<(u32, u32, String)> = vec![
        (0, 40, "Invoice".to_string()),
        (0, 65, "-------".to_string()),
        (0, 90, "Alice Johnson".to_string()),
        (300, 90, "100.50".to_string()),
        (0, 110, "Bob Smith".to_string()),
        (300, 110, "200.75".to_string()),
        (0, 130, "Charlie Brown".to_string()),
        (300, 130, "150.25".to_string()),
        (200, 160, "Total:".to_string()),
        (300, 160, "451.50".to_string()),
    ];
    assert_eq!(texts(&doc), expected);
    // the source has been read to the end
    assert!(!ds.next().unwrap());
}

#[test]
fn elements_keep_their_size_and_style() {
    let mut engine = LayoutEngine::new();
    let mut ds = JsonDataSource::new(DATA).unwrap();
    let doc = engine.layout(&invoice(), &mut ds).unwrap();
    match &doc.pages[0].elements[2] {
        FilledElement::Text(FilledText { width, height, style, .. }) => {
            assert_eq!((*width, *height), (100, 20));
            assert_eq!(style.font_size, Some(10));
            assert_eq!(style.font_weight.as_deref(), Some("bold"));
        }
    }
}

#[test]
fn page_holds_every_band_once_per_row() {
    let mut engine = LayoutEngine::new();
    let mut ds = JsonDataSource::new(DATA).unwrap();
    let doc = engine.layout(&invoice(), &mut ds).unwrap();
    assert_eq!(doc.pages[0].elements.len(), 2 + 3 * 2 + 2);

    let mut engine = LayoutEngine::new();
    let mut empty = JsonDataSource::new("[]").unwrap();
    let doc = engine.layout(&invoice(), &mut empty).unwrap();
    let expected: Vec<(u32, u32, String)> = vec![
        (0, 40, "Invoice".to_string()),
        (0, 65, "-------".to_string()),
        (200, 100, "Total:".to_string()),
        (300, 100, "0".to_string()),
    ];
    assert_eq!(texts(&doc), expected);
}

#[test]
fn variables_see_updates_of_earlier_variables() {
    let mut t = invoice();
    t.variables.push(variable("count", "Count", "$F{amount}"));
    t.variables.push(variable("avg", "Average", "$F{amount}"));
    t.variables.push(variable("runningTotal", "First", "$V{total}"));
    let mut bands = BandMap::new();
    bands.insert("detail".to_string(), Band { height: 10, elements: vec![text_field(0, 0, "$V{total}")] });
    bands.insert(
        "summary".to_string(),
        Band {
            height: 10,
            elements: vec![text_field(0, 0, "$V{count}"), text_field(0, 0, "$V{avg}"), text_field(0, 0, "$V{runningTotal}")],
        },
    );
    t.bands = bands;
    let mut engine = LayoutEngine::new();
    let mut ds = JsonDataSource::new(DATA).unwrap();
    let doc = engine.layout(&t, &mut ds).unwrap();
    let values: Vec<String> = texts(&doc).into_iter().map(|(_, _, s)| s).collect();
    assert_eq!(values, vec!["100.50", "301.25", "451.50", "3", "150.50", "100.50"]);
}

#[test]
fn summary_reads_the_last_row() {
    let mut t = invoice();
    let mut bands = BandMap::new();
    bands.insert("detail".to_string(), Band { height: 10, elements: Vec::new() });
    bands.insert("summary".to_string(), Band { height: 10, elements: vec![text_field(0, 0, "$F{customerName}")] });
    t.bands = bands;
    let mut engine = LayoutEngine::new();
    let mut ds = JsonDataSource::new(DATA).unwrap();
    let doc = engine.layout(&t, &mut ds).unwrap();
    assert_eq!(texts(&doc), vec![(0, 70, "Charlie Brown".to_string())]);
}

#[test]
fn without_detail_band_no_row_is_read() {
    let mut t = invoice();
    let mut bands = BandMap::new();
    bands.insert("summary".to_string(), Band { height: 10, elements: vec![text_field(1, 2, "$V{total}")] });
    t.bands = bands;
    let mut engine = LayoutEngine::new();
    let mut ds = JsonDataSource::new(DATA).unwrap();
    let doc = engine.layout(&t, &mut ds).unwrap();
    assert_eq!(texts(&doc), vec![(1, 42, "0".to_string())]);
    assert!(ds.next().unwrap());
    assert_eq!(ds.get_field("customerName").unwrap(), "Alice Johnson");
}

#[test]
fn field_in_title_has_no_current_row() {
    let mut t = invoice();
    t.bands.insert("title".to_string(), Band { height: 10, elements: vec![text_field(0, 0, "$F{amount}")] });
    let mut engine = LayoutEngine::new();
    let mut ds = JsonDataSource::new(DATA).unwrap();
    match engine.layout(&t, &mut ds) {
        Err(e @ LayoutError::DataSourceError(_)) => {
            assert_eq!(e.message(), "Data source error: Data source error: No current row")
        }
        other => panic!("unexpected {:?}", other.map(|_| ())),
    }
}

#[test]
fn missing_field_fails_the_layout() {
    let mut t = invoice();
    t.bands.insert("detail".to_string(), Band { height: 10, elements: vec![text_field(0, 0, "$F{phone}")] });
    let mut engine = LayoutEngine::new();
    let mut ds = JsonDataSource::new(DATA).unwrap();
    match engine.layout(&t, &mut ds) {
        Err(LayoutError::DataSourceError(m)) => assert_eq!(m, "Field not found: phone"),
        other => panic!("unexpected {:?}", other.map(|_| ())),
    }
}

#[test]
fn unknown_variable_fails_the_layout() {
    let mut t = invoice();
    t.bands.insert("summary".to_string(), Band { height: 10, elements: vec![text_field(0, 0, "$V{grandTotal}")] });
    let mut engine = LayoutEngine::new();
    let mut ds = JsonDataSource::new(DATA).unwrap();
    match engine.layout(&t, &mut ds) {
        Err(LayoutError::VariableError(m)) => assert_eq!(m, "Variable not found: grandTotal"),
        other => panic!("unexpected {:?}", other.map(|_| ())),
    }
}

#[test]
fn unknown_calculation_fails_before_any_row() {
    let mut t = invoice();
    t.variables.push(variable("median", "Median", "$F{amount}"));
    let mut engine = LayoutEngine::new();
    let mut ds = JsonDataSource::new(DATA).unwrap();
    match engine.layout(&t, &mut ds) {
        Err(e @ LayoutError::VariableError(_)) => {
            assert_eq!(e.message(), "Variable error: Variable error: Unknown calculation type: Median")
        }
        other => panic!("unexpected {:?}", other.map(|_| ())),
    }
    assert!(ds.next().unwrap());
    assert_eq!(ds.get_field("customerName").unwrap(), "Alice Johnson");
}

#[test]
fn non_decimal_value_fails_the_layout() {
    let mut engine = LayoutEngine::new();
    let mut ds = JsonDataSource::new(r#"[{"customerName": "A", "amount": "ten"}]"#).unwrap();
    match engine.layout(&invoice(), &mut ds) {
        Err(LayoutError::VariableError(m)) => {
            let detail = <rust_decimal::Decimal as std::str::FromStr>::from_str("ten").unwrap_err().to_string();
            assert_eq!(m, format!("Invalid decimal value: ten: {}", detail))
        }
        other => panic!("unexpected {:?}", other.map(|_| ())),
    }
}

#[test]
fn variables_start_over_with_each_layout() {
    let mut engine = LayoutEngine::new();
    let mut ds = JsonDataSource::new(DATA).unwrap();
    engine.layout(&invoice(), &mut ds).unwrap();
    ds.reset().unwrap();
    let doc = engine.layout(&invoice(), &mut ds).unwrap();
    assert_eq!(texts(&doc).last().unwrap().2, "451.50");
}

#[test]
fn try_layout_refuses_overflowing_sums() {
    let big = r#"[{"customerName": "A", "amount": "79228162514264337593543950335"},
                  {"customerName": "B", "amount": "79228162514264337593543950335"}]"#;
    let mut engine = LayoutEngine::new();
    let mut ds = JsonDataSource::new(big).unwrap();
    assert!(engine.try_layout(&invoice(), &mut ds).is_none());
    // nothing was read
    assert!(ds.next().unwrap());
    assert_eq!(ds.get_field("customerName").unwrap(), "A");

    let mut engine = LayoutEngine::new();
    let mut ds = JsonDataSource::new(DATA).unwrap();
    let doc = engine.try_layout(&invoice(), &mut ds).unwrap().unwrap();
    assert_eq!(texts(&doc).last().unwrap().2, "451.50");
}

#[test]
fn filled_document_building() {
    let mut doc = FilledDocument::new();
    assert!(doc.pages.is_empty());
    let mut page = FilledPage::new(100, 200);
    page.add_element(FilledElement::Text(FilledText {
        x: 1,
        y: 2,
        width: 3,
        height: 4,
        text: "a".to_string(),
        style: TextStyle::default(),
    }));
    doc.add_page(page);
    assert_eq!(doc.pages.len(), 1);
    assert_eq!((doc.pages[0].width, doc.pages[0].height), (100, 200));
    assert_eq!(doc.pages[0].elements.len(), 1);
    assert!(FilledDocument::default().pages.is_empty());
}

#[test]
fn layout_error_messages() {
    assert_eq!(LayoutError::ExpressionError("e".to_string()).message(), "Expression error: e");
    assert_eq!(LayoutError::Other("o".to_string()).message(), "Layout error: o");
}

#[test]
fn checked_layout_matches_layout() {
    let mut engine = LayoutEngine::new();
    let mut ds = JsonDataSource::new(DATA).unwrap();
    let doc = engine.checked_layout(&invoice(), &mut ds).unwrap().unwrap();
    let mut engine2 = LayoutEngine::new();
    let mut ds2 = JsonDataSource::new(DATA).unwrap();
    let doc2 = engine2.layout(&invoice(), &mut ds2).unwrap();
    assert_eq!(texts(&doc), texts(&doc2));
    assert_eq!(texts(&doc).last().unwrap().2, "451.50");
}

#[test]
fn checked_layout_reports_overflow() {
    let big = r#"[{"customerName": "A", "amount": "79228162514264337593543950335"},
                  {"customerName": "B", "amount": "79228162514264337593543950335"}]"#;
    let mut engine = LayoutEngine::new();
    let mut ds = JsonDataSource::new(big).unwrap();
    assert!(engine.checked_layout(&invoice(), &mut ds).is_none());
}

#[test]
fn template_that_reads_no_field_leaves_the_source() {
    let mut t = invoice();
    let mut bands = BandMap::new();
    bands.insert("title".to_string(), Band { height: 10, elements: vec![static_text(0, 0, "Report")] });
    bands.insert("summary".to_string(), Band { height: 10, elements: vec![text_field(5, 0, "$V{total}")] });
    t.bands = bands;
    let mut engine = LayoutEngine::new();
    let mut ds = JsonDataSource::new(DATA).unwrap();
    let doc = engine.checked_layout(&t, &mut ds).unwrap().unwrap();
    assert_eq!(texts(&doc), vec![(0, 40, "Report".to_string()), (5, 50, "0".to_string())]);
    assert!(ds.get_field("customerName").is_err());
}
