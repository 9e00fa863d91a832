use ffreader::posthelp::{cleanup, decode_special, fix_meter_size, fix_printkey, trim_zeroes, validate_acct};
use ffreader::{DataFieldError, PostError, PostProcess};

fn ok(r: Result<String, DataFieldError>) -> String {
    r.unwrap()
}

#[test]
fn cleanup_replaces_ampersand_and_comma() {
    assert_eq!(ok(cleanup(String::from("  SMITH & SONS, INC  "))), "SMITH and SONS  INC");
    assert_eq!(ok(cleanup(String::from("&"))), "and");
    assert_eq!(ok(cleanup(String::from("a,b"))), "a b");
    assert_eq!(ok(cleanup(String::new())), "");
    assert_eq!(ok(cleanup(String::from("a,"))), "a");
    assert_eq!(ok(cleanup(String::from("\t\u{a0}x\u{3000} "))), "x");
}

#[test]
fn cleanup_refuses_quote() {
    match cleanup(String::from(" say \"hi\" ")).unwrap_err() {
        DataFieldError::FieldContainsQuote(v) => assert_eq!(v, " say \"hi\" "),
        _ => panic!(),
    }
}

#[test]
fn cleanup_twice_equals_once() {
    for s in ["  A & B, C ", "plain", "", "&&", " x,y ", "a,", ",abc", ", ,", " & "] {
        let once = ok(cleanup(String::from(s)));
        let twice = ok(cleanup(once.clone()));
        assert_eq!(once, twice);
    }
}

#[test]
fn cleanup_edge_comma_is_trimmed() {
    let once = ok(cleanup(String::from(",abc")));
    assert_eq!(once, "abc");
    assert_eq!(ok(cleanup(once)), "abc");
}

#[test]
fn account_checks() {
    assert_eq!(ok(validate_acct(String::from("5112345678"))), "5112345678");
    assert_eq!(ok(validate_acct(String::from(" 5412345678001 "))), "5412345678001");
    for bad in ["54777XXXXX", "511234567", "5512345678", "6112345678", ""] {
        match validate_acct(String::from(bad)).unwrap_err() {
            DataFieldError::Problem(PostError::InvalidOrExcludedAccountID(a)) => assert_eq!(a, bad),
            _ => panic!(),
        }
    }
}

#[test]
fn printkey_compaction() {
    assert_eq!(ok(fix_printkey(String::from("0-0001-111.000"))), "0-01-111.000");
    assert_eq!(ok(fix_printkey(String::from("12-0001-111.000"))), "12-01-111.000");
    assert_eq!(ok(fix_printkey(String::from("123-0001-111.000"))), "123-01-111.000");
    assert_eq!(ok(fix_printkey(String::from("1-2"))), "1-2");
    assert_eq!(ok(fix_printkey(String::from("NOT A KEY 0000"))), "NOT A KEY 0000");
}

#[test]
fn meter_size_table() {
    assert_eq!(ok(fix_meter_size(String::from("0"))), "0.625");
    assert_eq!(ok(fix_meter_size(String::from("0.625"))), "0.625");
    assert_eq!(ok(fix_meter_size(String::from("5"))), "0.75");
    assert_eq!(ok(fix_meter_size(String::from("7"))), "1.5");
    assert_eq!(ok(fix_meter_size(String::from("8"))), "8");
    assert_eq!(ok(fix_meter_size(String::new())), "");
    match fix_meter_size(String::from("9")).unwrap_err() {
        DataFieldError::Problem(PostError::InvalidMeterSize(m)) => assert_eq!(m, "9"),
        _ => panic!(),
    }
}

#[test]
fn special_codes() {
    assert_eq!(ok(decode_special(String::from("S"))), "Shut");
    assert_eq!(ok(decode_special(String::from("E"))), "Elderly Exemption");
    assert_eq!(ok(decode_special(String::from("X"))), "Exempt");
    assert_eq!(ok(decode_special(String::from("O"))), "Outside User");
    assert_eq!(ok(decode_special(String::from("R"))), "Removed");
    match decode_special(String::from("Z")).unwrap_err() {
        DataFieldError::Problem(PostError::InvalidSpecialCode(c)) => assert_eq!(c, "Z"),
        _ => panic!(),
    }
}

#[test]
fn zeroes_trimmed() {
    assert_eq!(ok(trim_zeroes(String::from("000075"))), "75");
    assert_eq!(ok(trim_zeroes(String::from("+0042"))), "42");
    assert_eq!(ok(trim_zeroes(String::from("0"))), "");
    assert_eq!(ok(trim_zeroes(String::from("000"))), "");
    assert_eq!(ok(trim_zeroes(String::from("12a"))), "");
    assert_eq!(ok(trim_zeroes(String::from("-5"))), "");
    assert_eq!(ok(trim_zeroes(String::from("+"))), "");
    assert_eq!(ok(trim_zeroes(String::new())), "");
    assert_eq!(ok(trim_zeroes(String::from("4294967295"))), "4294967295");
    assert_eq!(ok(trim_zeroes(String::from("4294967296"))), "");
}

#[test]
fn rule_dispatch() {
    assert_eq!(ok(PostProcess::Identity.apply(String::from("a&b"))), "a&b");
    assert_eq!(ok(PostProcess::Cleanup.apply(String::from("a&b"))), "aandb");
    assert_eq!(ok(PostProcess::TrimZeroes.apply(String::from("010"))), "10");
}

#[test]
fn post_error_descriptions() {
    assert_eq!(
        PostError::InvalidOrExcludedAccountID(String::from("54777")).to_string(),
        "Invalid or Excluded Account ID (54777)"
    );
    assert_eq!(PostError::InvalidMeterSize(String::from("9")).to_string(), "Invalid Meter Size (9)");
}
