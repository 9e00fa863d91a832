use ffreader::{DataField, DataFieldDef, DataFieldError, PostProcess};

#[test]
fn non_ascii_caught() {
    let test_row = String::from("(╯°□°）╯︵ ┻━┻");
    let def = DataFieldDef::new("testname", 0, test_row.len(), PostProcess::Identity);

    let r = DataField::try_from_row(&test_row, &def);
    match r.unwrap_err() {
        DataFieldError::NonASCII(_) => {}
        _ => panic!(),
    }
}

#[test]
fn stray_quote_caught() {
    let test_row = String::from("test \" quote");
    let def = DataFieldDef::new("testname", 0, test_row.len(), PostProcess::Identity);

    let r = DataField::try_from_row(&test_row, &def);
    match r.unwrap_err() {
        DataFieldError::FieldContainsQuote(_) => {}
        _ => panic!(),
    }
}

#[test]
fn range_checks_work() {
    let test_row = String::from("test field");
    let def = DataFieldDef::new("testname", 28, 50, PostProcess::Identity);
    let r = DataField::try_from_row(&test_row, &def);
    assert!(r.unwrap().value().is_none());

    let def = DataFieldDef::new("testname", 7, 5, PostProcess::Identity);
    let r = DataField::try_from_row(&test_row, &def);
    match r.unwrap_err() {
        DataFieldError::StartAfterEnd(_) => {}
        _ => panic!(),
    }
}

#[test]
fn fields_extracted() {
    let test_row = String::from("1234567890  test1 test2  x");
    let defs = vec![
        DataFieldDef::new("field1", 0, 10, PostProcess::Identity),
        DataFieldDef::new("field2", 11, 17, PostProcess::Identity),
        DataFieldDef::new("field3", 18, 24, PostProcess::Identity),
        DataFieldDef::new("field4", 25, 27, PostProcess::Identity),
    ];
    let fields = vec!["1234567890", "test1", "test2", "x"];

    for (def, field) in defs.iter().zip(fields) {
        let r = DataField::try_from_row(&test_row, &def).unwrap();
        assert_eq!(r.value().clone().unwrap(), field);
    }
}

#[test]
fn missing_field_is_empty_and_succeeds() {
    let def = DataFieldDef::new("tail", 11, 20, PostProcess::DecodeSpecial);
    let f = DataField::try_from_row("short line", &def).unwrap();
    assert_eq!(f.name(), "tail");
    assert_eq!(f.raw(), "");
    assert!(f.value().is_none());
    assert_eq!(f.data(), "");
}

#[test]
fn start_at_line_end_gives_empty_field() {
    let def = DataFieldDef::new("edge", 10, 20, PostProcess::Identity);
    let f = DataField::try_from_row("test field", &def).unwrap();
    assert_eq!(f.raw(), "");
    assert!(f.value().is_none());
}

#[test]
fn end_is_clamped_to_line() {
    let def = DataFieldDef::new("clamped", 5, 500, PostProcess::Identity);
    let f = DataField::try_from_row("test  field  ", &def).unwrap();
    assert_eq!(f.raw(), " field  ");
    assert_eq!(f.data(), "field");
}

#[test]
fn blank_field_has_no_value() {
    let def = DataFieldDef::new("blank", 0, 4, PostProcess::Cleanup);
    let f = DataField::try_from_row("    x", &def).unwrap();
    assert_eq!(f.raw(), "    ");
    assert!(f.value().is_none());
}

#[test]
fn rule_error_fails_field() {
    let def = DataFieldDef::new("MeterSize", 0, 3, PostProcess::FixMeterSize);
    match DataField::try_from_row(" 9 rest", &def).unwrap_err() {
        DataFieldError::Problem(p) => assert_eq!(p.to_string(), "Invalid Meter Size (9)"),
        _ => panic!(),
    }
}

#[test]
fn extraction_is_deterministic() {
    let def = DataFieldDef::new("acct", 0, 12, PostProcess::ValidateAcct);
    let a = DataField::try_from_row("5112345678  tail", &def).unwrap();
    let b = DataField::try_from_row("5112345678  tail", &def).unwrap();
    assert_eq!(a.name(), b.name());
    assert_eq!(a.raw(), b.raw());
    assert_eq!(a.value(), b.value());
    assert_eq!(a.data(), "5112345678");
}

#[test]
fn new_field_keeps_data() {
    let f = DataField::new("name", String::from("value"));
    assert_eq!(f.name(), "name");
    assert_eq!(f.raw(), "value");
    assert_eq!(f.data(), "value");
    let e = DataField::new("empty", String::new());
    assert!(e.value().is_none());
}

#[test]
fn field_error_descriptions() {
    assert_eq!(DataFieldError::StartAfterEnd(String::from("f")).to_string(), "Start index is after end (f)");
    assert_eq!(DataFieldError::NonASCII(String::from("f")).to_string(), "Non ASCII (f)");
    assert_eq!(DataFieldError::FieldContainsQuote(String::from("a\"b")).to_string(), "Field contains quote (a\"b)");
    assert_eq!(
        DataFieldError::Problem(ffreader::PostError::InvalidSpecialCode(String::from("Q"))).to_string(),
        "Problem: Invalid Special Code (Q):"
    );
}
