use log_analyzer::log_analysis::{
    analyze_errors, calculate_avg_response_time, count_request_types,
};
use log_analyzer::pipeline::{load_records, IoFailure, LineEvent};
use log_analyzer::report::render_plain;

#[test]
fn loads_records_in_order_and_skips_unparseable_lines() {
    let events = vec![
        LineEvent::Line("[2024-07-05 05:13:35] POST /user/session 404 54".to_string()),
        LineEvent::Line("garbage".to_string()),
        LineEvent::Line("[2024-07-05 05:14:02] GET /home 200 12".to_string()),
        LineEvent::Line("".to_string()),
    ];
    let records = load_records(&events).unwrap();
    assert_eq!(records.len(), 2);
    assert_eq!(records[0].request_type, "POST");
    assert_eq!(records[0].endpoint_url, "/user/session");
    assert_eq!(records[0].status_code, 404);
    assert_eq!(records[0].response_time_ms, 54);
    assert_eq!(records[1].request_type, "GET");
    assert_eq!(records[1].endpoint_url, "/home");
    assert_eq!(records[1].status_code, 200);
    assert_eq!(records[1].response_time_ms, 12);
}

#[test]
fn empty_source_yields_empty_record_collection() {
    let events: Vec<LineEvent> = Vec::new();
    let records = load_records(&events).unwrap();
    assert!(records.is_empty());
}

#[test]
fn read_failure_aborts_with_io_failure_and_discards_partial_results() {
    let events = vec![
        LineEvent::Line("a b GET /home 200 12".to_string()),
        LineEvent::Failed,
        LineEvent::Line("a b GET /home 200 12".to_string()),
    ];
    assert!(matches!(load_records(&events), Err(IoFailure)));

    let only_failure = vec![LineEvent::Failed];
    assert!(matches!(load_records(&only_failure), Err(IoFailure)));
}

#[test]
fn whole_run_from_lines_to_plain_report() {
    let events = vec![
        LineEvent::Line("[2024-07-05 05:13:35] GET /login 404 100".to_string()),
        LineEvent::Line("too short".to_string()),
        LineEvent::Line("[2024-07-05 05:14:02] GET /login 200 200".to_string()),
    ];
    let records = load_records(&events).unwrap();
    let counts = count_request_types(&records);
    let errors = analyze_errors(&records);
    let avgs = calculate_avg_response_time(&records);
    let report = render_plain(&counts, &errors, &avgs);
    assert_eq!(
        report,
        "Request Summary:\n\
         GET: 2\n\
         \n\
         Error Analysis:\n\
         Endpoint: /login, Status Code: 404: 1\n\
         \n\
         Performance Metrics:\n\
         Endpoint: /login, Avg. Response Time: 150 ms\n"
    );
}
