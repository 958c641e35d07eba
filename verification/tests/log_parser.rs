use log_analyzer::log_entry::LogEntry;
use log_analyzer::log_parser::{parse_log_line, ParseError};

#[test]
fn test_parse_log_line_valid() {
    let logs = [
        "[2024-07-05 05:13:35] POST /user/session 404 54",
        "[2024-08-22 09:07:58] DELETE /user/profile 403 317",
        "[2024-09-19 10:37:55] GET /api/update 403 119",
        "[2024-07-01 02:21:47] PUT /contact 403 381",
    ];

    let expected_entries = [
        LogEntry {
            request_type: "POST".to_string(),
            endpoint_url: "/user/session".to_string(),
            status_code: 404,
            response_time_ms: 54,
        },
        LogEntry {
            request_type: "DELETE".to_string(),
            endpoint_url: "/user/profile".to_string(),
            status_code: 403,
            response_time_ms: 317,
        },
        LogEntry {
            request_type: "GET".to_string(),
            endpoint_url: "/api/update".to_string(),
            status_code: 403,
            response_time_ms: 119,
        },
        LogEntry {
            request_type: "PUT".to_string(),
            endpoint_url: "/contact".to_string(),
            status_code: 403,
            response_time_ms: 381,
        },
    ];

    for (log, expected_entry) in logs.iter().zip(expected_entries.iter()) {
        let result = parse_log_line(log);
        assert!(result.is_ok());

        let log_entry = result.unwrap();
        assert_eq!(log_entry.request_type, expected_entry.request_type);
        assert_eq!(log_entry.endpoint_url, expected_entry.endpoint_url);
        assert_eq!(log_entry.status_code, expected_entry.status_code);
        assert_eq!(log_entry.response_time_ms, expected_entry.response_time_ms);
    }
}

#[test]
fn parse_extracts_fields_by_position_ignoring_surroundings() {
    // Tokens 0 and 1 are arbitrary, extra trailing tokens are ignored.
    let entry = parse_log_line("x y GET /path 200 100 extra trailing tokens").unwrap();
    assert_eq!(entry.request_type, "GET");
    assert_eq!(entry.endpoint_url, "/path");
    assert_eq!(entry.status_code, 200);
    assert_eq!(entry.response_time_ms, 100);

    // Runs of whitespace of any length separate tokens.
    let entry = parse_log_line("  a\t\tb  POST\t/p   301  7  ").unwrap();
    assert_eq!(entry.request_type, "POST");
    assert_eq!(entry.endpoint_url, "/p");
    assert_eq!(entry.status_code, 301);
    assert_eq!(entry.response_time_ms, 7);
}

#[test]
fn parse_splits_on_unicode_whitespace() {
    // Non-breaking space, em quad and ideographic space all separate tokens,
    // exactly as splitting on Unicode whitespace does.
    let entry = parse_log_line("a\u{a0}b\u{2001}GET\u{3000}/p 404 54").unwrap();
    assert_eq!(entry.request_type, "GET");
    assert_eq!(entry.endpoint_url, "/p");
    assert_eq!(entry.status_code, 404);
    assert_eq!(entry.response_time_ms, 54);
}

#[test]
fn parse_rejects_short_lines_with_missing_fields() {
    assert!(matches!(parse_log_line(""), Err(ParseError::MissingFields)));
    assert!(matches!(parse_log_line("   "), Err(ParseError::MissingFields)));
    assert!(matches!(parse_log_line("a b c d e"), Err(ParseError::MissingFields)));
    assert!(matches!(
        parse_log_line("[2024-07-05 05:13:35] POST /user/session 404"),
        Err(ParseError::MissingFields)
    ));
}

#[test]
fn parse_coerces_non_numeric_fields_to_zero() {
    let entry = parse_log_line("a b GET /p abc 12").unwrap();
    assert_eq!(entry.status_code, 0);
    assert_eq!(entry.response_time_ms, 12);

    let entry = parse_log_line("a b GET /p 404 xyz").unwrap();
    assert_eq!(entry.status_code, 404);
    assert_eq!(entry.response_time_ms, 0);

    // Out-of-range numbers are coerced too, not truncated.
    let entry = parse_log_line("a b GET /p 99999 5000000000").unwrap();
    assert_eq!(entry.status_code, 0);
    assert_eq!(entry.response_time_ms, 0);

    // A leading plus sign is part of a valid number; a minus sign is not.
    let entry = parse_log_line("a b GET /p +404 -12").unwrap();
    assert_eq!(entry.status_code, 404);
    assert_eq!(entry.response_time_ms, 0);

    // A lone sign or an empty mantissa is not a number.
    let entry = parse_log_line("a b GET /p + 12.5").unwrap();
    assert_eq!(entry.status_code, 0);
    assert_eq!(entry.response_time_ms, 0);
}
