use serde_json::Value;
use xjasper::template::{validate_template, TemplateError};
use xjasper::types::{
    Band, BandMap, Element, Field, PageConfig, StaticText, Template, TextField, TextStyle, Variable,
};

fn text(v: &Value) -> String {
    v.as_str().unwrap().to_string()
}

fn number(v: &Value) -> u32 {
    v.as_u64().unwrap() as u32
}

fn style(v: Option<&Value>) -> TextStyle {
    match v {
        None => TextStyle::default(),
        Some(s) => TextStyle {
            font_size: s.get("fontSize").map(number),
            font_weight: s.get("fontWeight").map(text),
            align: s.get("align").map(text),
        },
    }
}

/// Builds a template from its JSON form, field by field.
fn template_from_json(json: &str) -> Template {
    let v: Value = serde_json::from_str(json).unwrap();
    let page = &v["page"];
    let margins = page["margins"].as_array().unwrap();
    let mut bands = BandMap::new();
    for (name, b) in v["bands"].as_object().unwrap() {
        let elements = b["elements"]
            .as_array()
            .unwrap()
            .iter()
            .map(|e| match e["type"].as_str().unwrap() {
                "staticText" => Element::StaticText(StaticText {
                    x: number(&e["x"]),
                    y: number(&e["y"]),
                    width: number(&e["width"]),
                    height: number(&e["height"]),
                    text: text(&e["text"]),
                    style: style(e.get("style")),
                }),
                _ => Element::TextField(TextField {
                    x: number(&e["x"]),
                    y: number(&e["y"]),
                    width: number(&e["width"]),
                    height: number(&e["height"]),
                    expression: text(&e["expression"]),
                    style: style(e.get("style")),
                }),
            })
            .collect();
        bands.insert(name.clone(), Band { height: number(&b["height"]), elements });
    }
    Template {
        name: text(&v["name"]),
        version: text(&v["version"]),
        page: PageConfig {
            width: number(&page["width"]),
            height: number(&page["height"]),
            margins: [number(&margins[0]), number(&margins[1]), number(&margins[2]), number(&margins[3])],
        },
        fields: v["fields"]
            .as_array()
            .unwrap()
            .iter()
            .map(|f| Field { name: text(&f["name"]), field_type: text(&f["type"]) })
            .collect(),
        variables: v["variables"]
            .as_array()
            .unwrap()
            .iter()
            .map(|x| Variable {
                name: text(&x["name"]),
                var_type: text(&x["type"]),
                calculation: text(&x["calculation"]),
                expression: text(&x["expression"]),
            })
            .collect(),
        bands,
    }
}

fn parse_template(json: &str) -> Result<Template, TemplateError> {
    let t = template_from_json(json);
    validate_template(&t)?;
    Ok(t)
}

#[test]
fn test_parse_simple_template() {
    let json = r#"{
        "name": "test",
        "version": "0.1",
        "page": {
            "width": 595,
            "height": 842,
            "margins": [40, 40, 40, 40]
        },
        "fields": [],
        "variables": [],
        "bands": {}
    }"#;

    let result = parse_template(json);
    assert!(result.is_ok());

    let template = result.unwrap();
    assert_eq!(template.name, "test");
    assert_eq!(template.version, "0.1");
    assert_eq!(template.page.width, 595);
}

#[test]
fn test_invalid_version() {
    let json = r#"{
        "name": "test",
        "version": "999.0",
        "page": {
            "width": 595,
            "height": 842,
            "margins": [40, 40, 40, 40]
        },
        "fields": [],
        "variables": [],
        "bands": {}
    }"#;

    let result = parse_template(json);
    assert!(result.is_err());
}

fn bare_template(version: &str, width: u32, height: u32) -> Template {
    Template {
        name: "t".to_string(),
        version: version.to_string(),
        page: PageConfig { width, height, margins: [0, 0, 0, 0] },
        fields: Vec::new(),
        variables: Vec::new(),
        bands: BandMap::new(),
    }
}

#[test]
fn validation_messages() {
    match validate_template(&bare_template("999.0", 10, 10)) {
        Err(e @ TemplateError::ValidationError(_)) => {
            assert_eq!(e.message(), "Invalid template: Unsupported version: 999.0")
        }
        other => panic!("unexpected {:?}", other),
    }
    for (w, h) in [(0, 10), (10, 0), (0, 0)] {
        match validate_template(&bare_template("0.1", w, h)) {
            Err(TemplateError::ValidationError(m)) => {
                assert_eq!(m, "Page width and height must be greater than 0")
            }
            other => panic!("unexpected {:?}", other),
        }
    }
    // the version is checked first
    match validate_template(&bare_template("0.2", 0, 0)) {
        Err(TemplateError::ValidationError(m)) => assert_eq!(m, "Unsupported version: 0.2"),
        other => panic!("unexpected {:?}", other),
    }
    assert!(validate_template(&bare_template("0.1", 1, 1)).is_ok());
    assert!(validate_template(&bare_template(" 0.1", 1, 1)).is_err());
}

#[test]
fn band_map_reads_what_was_written() {
    let mut bands = BandMap::new();
    assert!(bands.get("title").is_none());
    assert!(bands.insert("title".to_string(), Band { height: 10, elements: Vec::new() }).is_none());
    assert!(bands.insert("detail".to_string(), Band { height: 20, elements: Vec::new() }).is_none());
    assert_eq!(bands.get("title").unwrap().height, 10);
    let old = bands.insert("title".to_string(), Band { height: 30, elements: Vec::new() });
    assert_eq!(old.unwrap().height, 10);
    assert_eq!(bands.get("title").unwrap().height, 30);
    assert_eq!(bands.get("detail").unwrap().height, 20);
    assert!(bands.get("summary").is_none());
}
