use xjasper::datasource::{DataSource, DataSourceError, JsonDataSource};

#[test]
fn test_json_datasource() {
    let json = r#"[
        {"name": "Alice", "amount": "100.50"},
        {"name": "Bob", "amount": "200.75"}
    ]"#;

    let mut ds = JsonDataSource::new(json).unwrap();

    // First row
    assert!(ds.next().unwrap());
    assert_eq!(ds.get_field("name").unwrap(), "Alice");
    assert_eq!(ds.get_field("amount").unwrap(), "100.50");

    // Second row
    assert!(ds.next().unwrap());
    assert_eq!(ds.get_field("name").unwrap(), "Bob");

    // No more rows
    assert!(!ds.next().unwrap());
}

#[test]
fn test_reset() {
    let json = r#"[{"name": "Alice"}]"#;
    let mut ds = JsonDataSource::new(json).unwrap();

    assert!(ds.next().unwrap());
    assert_eq!(ds.get_field("name").unwrap(), "Alice");

    ds.reset().unwrap();

    assert!(ds.next().unwrap());
    assert_eq!(ds.get_field("name").unwrap(), "Alice");
}

#[test]
fn rows_are_visited_once_in_order_then_the_last_stays() {
    let mut ds = JsonDataSource::new(r#"[{"n": "1"}, {"n": "2"}, {"n": "3"}]"#).unwrap();
    let mut seen = Vec::new();
    while ds.next().unwrap() {
        seen.push(ds.get_field("n").unwrap());
    }
    assert_eq!(seen, vec!["1", "2", "3"]);
    assert!(!ds.next().unwrap());
    assert_eq!(ds.get_field("n").unwrap(), "3");
}

#[test]
fn empty_array_has_no_rows() {
    let mut ds = JsonDataSource::new("[]").unwrap();
    assert!(!ds.next().unwrap());
    assert!(!ds.next().unwrap());
}

#[test]
fn reading_before_the_first_row_fails() {
    let ds = JsonDataSource::new(r#"[{"name": "Alice"}]"#).unwrap();
    match ds.get_field("name") {
        Err(DataSourceError::Other(m)) => assert_eq!(m, "No current row"),
        other => panic!("unexpected {:?}", other),
    }
}

#[test]
fn missing_field_is_reported_by_name() {
    let mut ds = JsonDataSource::new(r#"[{"name": "Alice"}]"#).unwrap();
    assert!(ds.next().unwrap());
    match ds.get_field("age") {
        Err(e @ DataSourceError::FieldNotFound(_)) => assert_eq!(e.message(), "Field not found: age"),
        other => panic!("unexpected {:?}", other),
    }
}

#[test]
fn values_of_every_kind_become_text() {
    let json = r#"[{"s": "text", "i": 42, "neg": -7, "f": 1.5, "t": true, "b": false, "z": null,
        "arr": [1, "a"], "obj": {"k": 1}}]"#;
    let mut ds = JsonDataSource::new(json).unwrap();
    assert!(ds.next().unwrap());
    assert_eq!(ds.get_field("s").unwrap(), "text");
    assert_eq!(ds.get_field("i").unwrap(), "42");
    assert_eq!(ds.get_field("neg").unwrap(), "-7");
    assert_eq!(ds.get_field("f").unwrap(), "1.5");
    assert_eq!(ds.get_field("t").unwrap(), "true");
    assert_eq!(ds.get_field("b").unwrap(), "false");
    assert_eq!(ds.get_field("z").unwrap(), "");
    assert_eq!(ds.get_field("arr").unwrap(), r#"[1,"a"]"#);
    assert_eq!(ds.get_field("obj").unwrap(), r#"{"k":1}"#);
}

#[test]
fn invalid_json_is_a_json_error() {
    for text in ["not json", "{\"a\": 1}", "[1, 2]", "[{\"a\": 1}"] {
        match JsonDataSource::new(text) {
            Err(e @ DataSourceError::JsonError(_)) => assert!(e.message().starts_with("JSON parse error: ")),
            Err(other) => panic!("unexpected {:?}", other),
            Ok(_) => panic!("accepted {}", text),
        }
    }
}

#[test]
fn duplicate_keeps_rows_and_position() {
    let mut ds = JsonDataSource::new(r#"[{"n": "1"}, {"n": "2"}]"#).unwrap();
    assert!(ds.next().unwrap());
    let mut copy = ds.duplicate();
    assert_eq!(copy.get_field("n").unwrap(), "1");
    assert!(copy.next().unwrap());
    assert_eq!(copy.get_field("n").unwrap(), "2");
    assert_eq!(ds.get_field("n").unwrap(), "1");
}

#[test]
fn error_messages() {
    assert_eq!(DataSourceError::Other("x".to_string()).message(), "Data source error: x");
}

#[test]
fn fields_give_the_text_of_each_json_kind() {
    let json = r#"[{"s":"x","n":42,"f":100.5,"b":true,"z":null,"a":[1,2],"o":{"k":1}}]"#;
    let mut ds = JsonDataSource::new(json).unwrap();
    assert!(ds.next().unwrap());
    assert_eq!(ds.get_field("s").unwrap(), "x");
    assert_eq!(ds.get_field("n").unwrap(), "42");
    assert_eq!(ds.get_field("f").unwrap(), "100.5");
    assert_eq!(ds.get_field("b").unwrap(), "true");
    assert_eq!(ds.get_field("z").unwrap(), "");
    assert_eq!(ds.get_field("a").unwrap(), "[1,2]");
    assert_eq!(ds.get_field("o").unwrap(), r#"{"k":1}"#);
}

#[test]
fn reset_reads_like_a_fresh_source() {
    let json = r#"[{"name": "Alice", "n": 1}, {"name": "Bob", "n": 2}]"#;
    let mut used = JsonDataSource::new(json).unwrap();
    assert!(used.next().unwrap());
    assert!(used.next().unwrap());
    used.reset().unwrap();
    let mut fresh = JsonDataSource::new(json).unwrap();
    assert!(used.get_field("name").is_err());
    for _ in 0..2 {
        assert_eq!(used.next().unwrap(), fresh.next().unwrap());
        assert_eq!(used.get_field("name").unwrap(), fresh.get_field("name").unwrap());
        assert_eq!(used.get_field("n").unwrap(), fresh.get_field("n").unwrap());
    }
    assert!(!used.next().unwrap());
}
