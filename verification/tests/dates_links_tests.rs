use elasticnow::dates::{range_format_validate, DateError};
use elasticnow::links::{
    chg_link, instance_base_url, login_redirect_url, req_item_link, session_from_callback_path,
    ticket_link,
};
use elasticnow::records::TimeWorked;

fn time_worked(category: &str) -> TimeWorked {
    TimeWorked {
        time_in_seconds: "60".to_string(),
        task: String::new(),
        category: category.to_string(),
    }
}

#[test]
fn test_valid_dates_pass() {
    assert!(range_format_validate("2024-1-31").is_ok());
    assert!(range_format_validate("2024-01-05").is_ok());
    assert!(range_format_validate("2000-12-31").is_ok());
    assert!(range_format_validate("3000-1-1").is_ok());
}

#[test]
fn test_calendar_invalid_day_is_accepted() {
    // The check is syntactic only: a 31st in February passes by design.
    assert!(range_format_validate("2024-2-31").is_ok());
}

#[test]
fn test_date_shape_errors() {
    for bad in ["2024", "2024-1", "2024-1-1-5", ""] {
        let err = range_format_validate(bad).unwrap_err();
        assert_eq!(err, DateError::Shape, "input {:?}", bad);
        assert_eq!(err.message(), "Date must be in YYYY-M-D format");
    }
}

#[test]
fn test_date_range_errors() {
    let err = range_format_validate("1999-1-1").unwrap_err();
    assert_eq!(err, DateError::Year);
    assert_eq!(err.message(), "Year must be between 2010 and 2100");
    let err = range_format_validate("3001-1-1").unwrap_err();
    assert_eq!(err, DateError::Year);
    let err = range_format_validate("2024-13-1").unwrap_err();
    assert_eq!(err.message(), "Month must be between 1 and 12");
    let err = range_format_validate("2024-0-1").unwrap_err();
    assert_eq!(err, DateError::Month);
    let err = range_format_validate("2024-1-32").unwrap_err();
    assert_eq!(err.message(), "Day must be between 1 and 31");
    let err = range_format_validate("2024-1-0").unwrap_err();
    assert_eq!(err, DateError::Day);
}

#[test]
fn test_date_numeric_errors() {
    let err = range_format_validate("2024-x-1").unwrap_err();
    assert_eq!(err.message(), "invalid digit found in string");
    let err = range_format_validate("2024--1").unwrap_err();
    // Two adjacent dashes leave an empty middle part.
    assert_eq!(err.message(), "cannot parse integer from empty string");
    let err = range_format_validate("99999999999-1-1").unwrap_err();
    assert_eq!(err.message(), "number too large to fit in target type");
}

#[test]
fn test_deep_links() {
    assert_eq!(
        ticket_link("dev", "abc123"),
        "https://dev.service-now.com/task.do?sys_id=abc123"
    );
    assert_eq!(
        req_item_link("dev", "abc123"),
        "https://dev.service-now.com/sc_req_item.do?sys_id=abc123"
    );
    assert_eq!(
        chg_link("prod", "zzz"),
        "https://prod.service-now.com/change_request.do?sys_id=zzz"
    );
    assert_eq!(instance_base_url("dev"), "https://dev.service-now.com");
}

#[test]
fn test_login_callback_pieces() {
    assert_eq!(
        login_redirect_url("https://example.test", 8042),
        "https://example.test/cli/login/redirect/8042"
    );
    assert_eq!(session_from_callback_path("/abc=1;xyz"), "abc=1;xyz");
    assert_eq!(session_from_callback_path("/"), "");
}

#[test]
fn test_nice_name_category_mapping() {
    assert_eq!(
        time_worked("certs_prodev_training").get_nice_name_category(),
        "Training"
    );
    assert_eq!(time_worked("clerical").get_nice_name_category(), "Clerical");
    assert_eq!(
        time_worked("univ_events").get_nice_name_category(),
        "University Events"
    );
    // Unknown keys pass through verbatim.
    assert_eq!(time_worked("sabbatical").get_nice_name_category(), "sabbatical");
}
