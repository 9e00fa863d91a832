use ffreader::{DataFieldDef, DataFile, DataFileError, DataRowError, PostProcess, MINIMUM_ROW_LENGTH};

fn defs() -> Vec<DataFieldDef> {
    vec![
        DataFieldDef::new("id", 0, 10, PostProcess::ValidateAcct),
        DataFieldDef::new("name", 11, 30, PostProcess::Cleanup),
    ]
}

fn good_line(name: &str) -> String {
    let mut line = format!("5112345678 {}", name);
    while line.len() < MINIMUM_ROW_LENGTH {
        line.push(' ');
    }
    line
}

#[test]
fn hundred_lines_one_short() {
    let mut text = String::new();
    for i in 0..100 {
        if i == 36 {
            text.push_str(&"y".repeat(50));
        } else {
            text.push_str(&good_line("OWNER"));
        }
        text.push('\n');
    }
    let file = DataFile::try_from_text(&text, &defs()).unwrap();
    assert_eq!(file.rows().len(), 99);
    assert_eq!(file.warnings().len(), 1);
    let w = &file.warnings()[0];
    assert_eq!(w.line_index(), 36);
    match w.message() {
        DataRowError::BadRowLength(n) => assert_eq!(*n, 50),
        _ => panic!(),
    }
    assert_eq!(w.to_string(), "Line 37 Bad Row Length (50)");
}

#[test]
fn rows_and_warnings_cover_every_line() {
    let text = format!("{}\r\nshort\r{}\n\n{}", good_line("A"), good_line("B"), good_line("C & D"));
    let file = DataFile::try_from_text(&text, &defs()).unwrap();
    assert_eq!(file.rows().len() + file.warnings().len(), 5);
    assert_eq!(file.rows().len(), 3);
    assert_eq!(file.warnings()[0].line_index(), 1);
    assert_eq!(file.warnings()[1].line_index(), 3);
    assert_eq!(file.warnings()[1].to_string(), "Line 4 Bad Row Length (0)");
}

#[test]
fn final_newline_adds_no_line() {
    let text = format!("{}\n", good_line("A"));
    let file = DataFile::try_from_text(&text, &defs()).unwrap();
    assert_eq!(file.rows().len(), 1);
    assert_eq!(file.warnings().len(), 0);
    let empty = DataFile::try_from_text("", &defs()).unwrap();
    assert_eq!(empty.rows().len(), 0);
    assert_eq!(empty.warnings().len(), 0);
}

#[test]
fn non_ascii_text_refused() {
    match DataFile::try_from_text("caf\u{e9}\n", &defs()).unwrap_err() {
        DataFileError::NonASCIIFile => {}
        _ => panic!(),
    }
    assert_eq!(DataFileError::NonASCIIFile.to_string(), "Data File Error: Non ASCII file.");
    assert_eq!(
        DataFileError::FileError(String::from("in.txt"), String::from("not found")).to_string(),
        "Data File Error: IO error on in.txt (not found)"
    );
}

#[test]
fn json_rendering() {
    let text = format!("{}\n{}", good_line("A & B"), good_line(""));
    let file = DataFile::try_from_text(&text, &defs()).unwrap();
    assert_eq!(
        file.jsonify(),
        "[{\"id\": \"5112345678\",\"name\": \"A and B\"},\n{\"id\": \"5112345678\",\"name\": \"\"}]"
    );
    let empty = DataFile::try_from_text("", &defs()).unwrap();
    assert_eq!(empty.jsonify(), "[]");
}

#[test]
fn csv_rendering() {
    let text = format!("{}\n{}", good_line("A, B"), good_line(""));
    let file = DataFile::try_from_text(&text, &defs()).unwrap();
    assert_eq!(file.to_csv(&vec!["name", "id"]), vec!["A  B,5112345678", ",5112345678"]);
    assert_eq!(file.to_csv(&vec!["id", "missing"]).len(), 0);
}
