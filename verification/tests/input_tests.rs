use license_me::error_collector::ErrorCollector;
use license_me::operating_mode::OperatingMode;
use license_me::output_printer::PrintMode;
use license_me::settings_file::ProgramSettings;
use license_me::user_input::{extract_and_validate_num, is_affirmative, parse_isize, trim, NumError};

#[test]
fn valid_selection_within_range_is_accepted() {
    assert_eq!(extract_and_validate_num("5", 10), Ok(5));
    assert_eq!(extract_and_validate_num("1", 1), Ok(1));
    assert_eq!(extract_and_validate_num(" 3 ", 10), Ok(3));
}

#[test]
fn out_of_range_selection_is_rejected() {
    assert_eq!(extract_and_validate_num("15", 10), Err(NumError::NotPositiveOrInRange));
    assert_eq!(extract_and_validate_num("0", 10), Err(NumError::NotPositiveOrInRange));
    assert_eq!(extract_and_validate_num("-2", 10), Err(NumError::NotPositiveOrInRange));
}

#[test]
fn unparsable_selection_is_rejected() {
    assert_eq!(extract_and_validate_num("abc", 10), Err(NumError::ParsingError));
    assert_eq!(extract_and_validate_num("", 10), Err(NumError::ParsingError));
    assert_eq!(extract_and_validate_num("1 2", 10), Err(NumError::ParsingError));
}

#[test]
fn num_error_messages_match_their_names() {
    assert_eq!(NumError::NotPositiveOrInRange.message(), "NumNotPositiveOrInRange");
    assert_eq!(NumError::ParsingError.message(), "NumParsingError");
}

#[test]
fn parse_isize_reads_signed_decimals() {
    assert_eq!(parse_isize("42"), Some(42));
    assert_eq!(parse_isize("-7"), Some(-7));
    assert_eq!(parse_isize("+1"), Some(1));
    assert_eq!(parse_isize("007"), Some(7));
    assert_eq!(parse_isize(""), None);
    assert_eq!(parse_isize("-"), None);
    assert_eq!(parse_isize("1.5"), None);
    assert_eq!(parse_isize("99999999999999999999999999"), None);
}

#[test]
fn trim_removes_surrounding_whitespace_only() {
    assert_eq!(trim("  a b \t\n"), "a b");
    assert_eq!(trim("x"), "x");
    assert_eq!(trim("   "), "");
}

#[test]
fn affirmative_answers_are_recognized() {
    for yes in ["Y", "y", "j", "J", "Ja", "ja", "Yes", "yes"] {
        assert!(is_affirmative(yes));
    }
    for no in ["n", "N", "no", "", "YES", "yess", " y"] {
        assert!(!is_affirmative(no));
    }
}

#[test]
fn operating_mode_numbers_follow_the_menu() {
    assert_eq!(OperatingMode::from_usize(1), Some(OperatingMode::SetNewLicense));
    assert_eq!(OperatingMode::from_usize(2), Some(OperatingMode::AppendLicense));
    assert_eq!(OperatingMode::from_usize(3), Some(OperatingMode::LicenseReplace));
    assert_eq!(OperatingMode::from_usize(4), Some(OperatingMode::ShowAllGitDirs));
    assert_eq!(OperatingMode::from_usize(5), Some(OperatingMode::Unlicense));
    assert_eq!(OperatingMode::from_usize(0), None);
    assert_eq!(OperatingMode::from_usize(6), None);
}

#[test]
fn norm_print_mode_is_quiet_with_no_errors() {
    let pm = PrintMode::norm();
    assert!(!pm.verbose);
    assert!(!pm.debug);
    assert!(pm.err_col.collection.is_empty());
}

#[test]
fn error_collector_appends_messages_in_order() {
    let mut col = ErrorCollector::init();
    assert!(col.collection.is_empty());
    col.add("first".to_string());
    col.add("second".to_string());
    assert_eq!(col.collection, vec!["first".to_string(), "second".to_string()]);
}

#[test]
fn default_settings_point_at_the_template() {
    let s = ProgramSettings::default();
    assert_eq!(s.github_user, "");
    assert!(s.github_api_token.is_none());
    assert_eq!(
        s.readme_template_link,
        "https://raw.githubusercontent.com/PurpleBooth/a-good-readme-template/main/README.md"
    );
    assert_eq!(s.replace_in_readme_phrase, "# Project Title");
}
