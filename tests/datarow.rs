use ffreader::{DataFieldDef, DataRow, DataRowError, DataFieldError, PostProcess, MINIMUM_ROW_LENGTH};

fn test_row() -> String {
    String::from("5412345678  54     1   123 TEST OWNER            5412345678                           5412345678001  54    4    1  Z              5412345678           TEST AVE ABC              000075                      0-0001-111.000            0        R")
}

fn test_field_defs() -> Vec<DataFieldDef> {
    vec![
        DataFieldDef::new("AccountNo1", 0, 11, PostProcess::Identity),
        DataFieldDef::new("CyclNo1", 11, 16, PostProcess::Identity),
        DataFieldDef::new("Status", 16, 23, PostProcess::Identity),
        DataFieldDef::new("OwnerName", 23, 49, PostProcess::Identity),
        DataFieldDef::new("PropAddrKey", 49, 60, PostProcess::Identity),
        DataFieldDef::new("AddrLine2", 60, 86, PostProcess::Identity),
        DataFieldDef::new("MeterID", 86, 100, PostProcess::Identity),
        DataFieldDef::new("CyclNo2", 100, 105, PostProcess::Identity),
        DataFieldDef::new("ReadDigits", 105, 110, PostProcess::Identity),
        DataFieldDef::new("No", 110, 114, PostProcess::Identity),
        DataFieldDef::new("Type", 114, 119, PostProcess::Identity),
        DataFieldDef::new("ARB", 119, 130, PostProcess::Identity),
        DataFieldDef::new("FileKey", 130, 141, PostProcess::Identity),
        DataFieldDef::new("StreetDirection", 141, 151, PostProcess::Identity),
        DataFieldDef::new("StreetName", 151, 177, PostProcess::Identity),
        DataFieldDef::new("StreetNumber", 177, 184, PostProcess::Identity),
        DataFieldDef::new("StreetUnit", 184, 191, PostProcess::Identity),
        DataFieldDef::new("MeterSerial", 191, 205, PostProcess::Identity),
        DataFieldDef::new("PrintKey", 205, 231, PostProcess::Identity),
        DataFieldDef::new("MeterSize", 231, 237, PostProcess::Identity),
        DataFieldDef::new("Special", 237, 242, PostProcess::Identity),
    ]
}

fn layout_defs() -> Vec<DataFieldDef> {
    vec![
        DataFieldDef::new("AccountNo1", 0, 11, PostProcess::ValidateAcct),
        DataFieldDef::new("CyclNo1", 11, 16, PostProcess::Cleanup),
        DataFieldDef::new("Status", 16, 23, PostProcess::Cleanup),
        DataFieldDef::new("OwnerName", 23, 49, PostProcess::Cleanup),
        DataFieldDef::new("PropAddrKey", 49, 60, PostProcess::Cleanup),
        DataFieldDef::new("AddrLine2", 60, 86, PostProcess::Cleanup),
        DataFieldDef::new("MeterID", 86, 100, PostProcess::ValidateAcct),
        DataFieldDef::new("CyclNo2", 100, 105, PostProcess::Cleanup),
        DataFieldDef::new("ReadDigits", 105, 110, PostProcess::Cleanup),
        DataFieldDef::new("No", 110, 114, PostProcess::Cleanup),
        DataFieldDef::new("Type", 114, 119, PostProcess::Cleanup),
        DataFieldDef::new("ARB", 119, 130, PostProcess::Cleanup),
        DataFieldDef::new("FileKey", 130, 141, PostProcess::Cleanup),
        DataFieldDef::new("StreetDirection", 141, 151, PostProcess::Cleanup),
        DataFieldDef::new("StreetName", 151, 177, PostProcess::Cleanup),
        DataFieldDef::new("StreetNumber", 177, 184, PostProcess::TrimZeroes),
        DataFieldDef::new("StreetUnit", 184, 191, PostProcess::Cleanup),
        DataFieldDef::new("MeterSerial", 191, 205, PostProcess::Cleanup),
        DataFieldDef::new("PrintKey", 205, 231, PostProcess::FixPrintkey),
        DataFieldDef::new("MeterSize", 231, 237, PostProcess::FixMeterSize),
        DataFieldDef::new("Special", 237, 242, PostProcess::DecodeSpecial),
    ]
}

#[test]
fn creation_extraction_works() {
    let row = test_row();
    let defs = test_field_defs();

    let datarow = DataRow::try_create(&row, &defs).unwrap();

    let fields = datarow.fields();

    assert_eq!(fields.iter().find(|s| s.name() == "MeterID").unwrap().data(), "5412345678001");
    assert_eq!(fields.iter().find(|s| s.name() == "AccountNo1").unwrap().data(), "5412345678");
    assert_eq!(fields.iter().find(|s| s.name() == "Special").unwrap().data(), "R");
    assert_eq!(fields.iter().find(|s| s.name() == "MeterSize").unwrap().data(), "0");
    assert_eq!(fields.iter().find(|s| s.name() == "OwnerName").unwrap().data(), "123 TEST OWNER");
}

#[test]
fn layout_rules_applied_to_row() {
    let row = test_row();
    let datarow = DataRow::try_create(&row, &layout_defs()).unwrap();
    let fields = datarow.fields();
    let get = |n: &str| fields.iter().find(|s| s.name() == n).unwrap().data();
    assert_eq!(get("StreetNumber"), "75");
    assert_eq!(get("PrintKey"), "0-01-111.000");
    assert_eq!(get("MeterSize"), "0.625");
    assert_eq!(get("Special"), "Removed");
    assert_eq!(get("MeterID"), "5412345678001");
}

#[test]
fn short_line_gives_bad_row_length() {
    let line = "x".repeat(MINIMUM_ROW_LENGTH - 1);
    match DataRow::try_create(&line, &test_field_defs()).unwrap_err() {
        DataRowError::BadRowLength(n) => assert_eq!(n, MINIMUM_ROW_LENGTH - 1),
        _ => panic!(),
    }
    match DataRow::try_create("", &layout_defs()).unwrap_err() {
        DataRowError::BadRowLength(n) => assert_eq!(n, 0),
        _ => panic!(),
    }
}

#[test]
fn line_of_minimum_length_is_accepted() {
    let line = " ".repeat(MINIMUM_ROW_LENGTH);
    let row = DataRow::try_create(&line, &test_field_defs()).unwrap();
    assert_eq!(row.fields().len(), 21);
}

#[test]
fn padded_scenario_fields() {
    let mut line = String::from("1234567890  test1 test2  x");
    while line.len() < MINIMUM_ROW_LENGTH {
        line.push(' ');
    }
    let defs = vec![
        DataFieldDef::new("field1", 0, 10, PostProcess::Identity),
        DataFieldDef::new("field2", 11, 17, PostProcess::Identity),
        DataFieldDef::new("field3", 18, 24, PostProcess::Identity),
        DataFieldDef::new("field4", 25, 27, PostProcess::Identity),
    ];
    let row = DataRow::try_create(&line, &defs).unwrap();
    let values: Vec<String> = row.fields().iter().map(|f| f.data()).collect();
    assert_eq!(values, vec!["1234567890", "test1", "test2", "x"]);
}

#[test]
fn first_field_error_fails_row() {
    let mut line = String::from("5477712345 \"quoted\"");
    while line.len() < MINIMUM_ROW_LENGTH {
        line.push(' ');
    }
    let defs = vec![
        DataFieldDef::new("acct", 0, 10, PostProcess::ValidateAcct),
        DataFieldDef::new("q", 11, 19, PostProcess::Identity),
    ];
    match DataRow::try_create(&line, &defs).unwrap_err() {
        DataRowError::FieldError(DataFieldError::Problem(p)) => {
            assert_eq!(p.to_string(), "Invalid or Excluded Account ID (5477712345)")
        }
        _ => panic!(),
    }
}

#[test]
fn ordered_fields_follow_names() {
    let row = DataRow::try_create(&test_row(), &test_field_defs()).unwrap();
    let picked = row.get_ordered_fields(&vec!["Special", "AccountNo1"]).unwrap();
    assert_eq!(picked.len(), 2);
    assert_eq!(picked[0].name(), "Special");
    assert_eq!(picked[0].data(), "R");
    assert_eq!(picked[1].data(), "5412345678");
}

#[test]
fn ordered_fields_round_trip() {
    let row = DataRow::try_create(&test_row(), &test_field_defs()).unwrap();
    let names: Vec<String> = row.fields().iter().map(|f| f.name().clone()).collect();
    let name_refs: Vec<&str> = names.iter().map(|n| n.as_str()).collect();
    let picked = row.get_ordered_fields(&name_refs).unwrap();
    assert_eq!(picked.len(), row.fields().len());
    for (a, b) in picked.iter().zip(row.fields().iter()) {
        assert_eq!(a.name(), b.name());
        assert_eq!(a.raw(), b.raw());
        assert_eq!(a.value(), b.value());
    }
}

#[test]
fn missing_name_is_reported() {
    let row = DataRow::try_create(&test_row(), &test_field_defs()).unwrap();
    match row.get_ordered_fields(&vec!["AccountNo1", "Nope", "Other"]).unwrap_err() {
        DataRowError::FieldNameNotFound(n) => assert_eq!(n, "Nope"),
        _ => panic!(),
    }
}

#[test]
fn row_error_descriptions() {
    assert_eq!(DataRowError::BadRowLength(50).to_string(), "Bad Row Length (50)");
    assert_eq!(DataRowError::FieldNameNotFound(String::from("X")).to_string(), "Field Name Not Found (X)");
    assert_eq!(
        DataRowError::FieldError(DataFieldError::NonASCII(String::from("f"))).to_string(),
        "Non ASCII (f)"
    );
}
