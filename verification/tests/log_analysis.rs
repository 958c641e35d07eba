use log_analyzer::log_analysis::{analyze_errors, calculate_avg_response_time, count_request_types};
use log_analyzer::log_entry::LogEntry;

fn entry(request_type: &str, endpoint_url: &str, status_code: u16, response_time_ms: u32) -> LogEntry {
    LogEntry {
        request_type: request_type.to_string(),
        endpoint_url: endpoint_url.to_string(),
        status_code,
        response_time_ms,
    }
}

fn count_for<'a, V: Copy>(result: &'a [(String, V)], key: &str) -> Option<V> {
    result.iter().find(|p| p.0 == key).map(|p| p.1)
}

fn error_count_for(result: &[((String, u16), usize)], key: (&str, u16)) -> Option<usize> {
    result
        .iter()
        .find(|p| p.0 .0 == key.0 && p.0 .1 == key.1)
        .map(|p| p.1)
}

#[test]
fn test_calculate_avg_response_time() {
    // Create some test entries
    let log_entries = vec![
        entry("GET", "/endpoint_test", 200, 100),
        entry("GET", "/endpoint_test", 200, 200),
        entry("GET", "/endpoint2", 200, 150),
        entry("GET", "/endpoint2", 200, 300),
    ];
    let result = calculate_avg_response_time(&log_entries);
    assert!(
        result.len() == 2
            && count_for(&result, "/endpoint_test") == Some(150)
            && count_for(&result, "/endpoint2") == Some(225)
    );
}

#[test]
fn test_analyze_errors() {
    let log_entries = vec![
        entry("GET", "/login", 404, 120),
        entry("GET", "/login", 500, 120),
        entry("GET", "/login", 404, 120),
    ];
    let result = analyze_errors(&log_entries);
    assert!(
        result.len() == 2
            && error_count_for(&result, ("/login", 404)) == Some(2)
            && error_count_for(&result, ("/login", 500)) == Some(1)
    );
}

#[test]
fn test_count_request_types() {
    // Create some test entries
    let log_entries = vec![
        entry("GET", "/login", 404, 120),
        entry("POST", "/login", 404, 120),
        entry("GET", "/login", 404, 120),
        entry("PUT", "/login", 404, 120),
    ];
    let result = count_request_types(&log_entries);
    assert!(
        result.len() == 3
            && count_for(&result, "GET") == Some(2)
            && count_for(&result, "POST") == Some(1)
            && count_for(&result, "PUT") == Some(1)
    );
}

#[test]
fn reducers_are_invariant_under_permutation() {
    let forward = vec![
        entry("GET", "/a", 200, 100),
        entry("POST", "/b", 404, 40),
        entry("GET", "/a", 500, 200),
        entry("PUT", "/b", 200, 60),
    ];
    let mut backward = clone_entries(&forward);
    backward.reverse();

    let mut c1 = count_request_types(&forward);
    let mut c2 = count_request_types(&backward);
    c1.sort();
    c2.sort();
    assert_eq!(c1, c2);

    let mut e1 = analyze_errors(&forward);
    let mut e2 = analyze_errors(&backward);
    e1.sort();
    e2.sort();
    assert_eq!(e1, e2);

    let mut a1 = calculate_avg_response_time(&forward);
    let mut a2 = calculate_avg_response_time(&backward);
    a1.sort();
    a2.sort();
    assert_eq!(a1, a2);
}

fn clone_entries(v: &[LogEntry]) -> Vec<LogEntry> {
    v.iter()
        .map(|l| LogEntry {
            request_type: l.request_type.clone(),
            endpoint_url: l.endpoint_url.clone(),
            status_code: l.status_code,
            response_time_ms: l.response_time_ms,
        })
        .collect()
}

#[test]
fn request_type_counts_sum_to_record_count() {
    let log_entries = vec![
        entry("GET", "/a", 200, 1),
        entry("POST", "/b", 200, 2),
        entry("GET", "/c", 200, 3),
        entry("HEAD", "/d", 200, 4),
        entry("GET", "/e", 200, 5),
    ];
    let result = count_request_types(&log_entries);
    let total: usize = result.iter().map(|p| p.1).sum();
    assert_eq!(total, log_entries.len());
}

#[test]
fn error_analysis_only_counts_errors_and_never_more_than_the_records() {
    let log_entries = vec![
        entry("GET", "/a", 200, 1),
        entry("GET", "/a", 399, 1),
        entry("GET", "/a", 400, 1),
        entry("GET", "/b", 404, 1),
        entry("GET", "/b", 404, 1),
    ];
    let result = analyze_errors(&log_entries);
    assert!(result.iter().all(|p| p.0 .1 >= 400));
    let total: usize = result.iter().map(|p| p.1).sum();
    assert!(total <= log_entries.len());
    assert_eq!(total, 3);
    assert_eq!(error_count_for(&result, ("/a", 400)), Some(1));
    assert_eq!(error_count_for(&result, ("/b", 404)), Some(2));
    assert_eq!(error_count_for(&result, ("/a", 200)), None);
    assert_eq!(error_count_for(&result, ("/a", 399)), None);
}

#[test]
fn average_response_time_uses_floor_division() {
    let result = calculate_avg_response_time(&vec![
        entry("GET", "/x", 200, 100),
        entry("GET", "/x", 200, 201),
        entry("GET", "/y", 200, 1),
        entry("GET", "/y", 200, 2),
    ]);
    assert_eq!(count_for(&result, "/x"), Some(150));
    assert_eq!(count_for(&result, "/y"), Some(1));
}

#[test]
fn average_counts_every_record_not_only_errors() {
    let result = calculate_avg_response_time(&vec![
        entry("GET", "/x", 500, 100),
        entry("GET", "/x", 200, 200),
    ]);
    assert_eq!(count_for(&result, "/x"), Some(150));
}

#[test]
fn empty_input_yields_empty_outputs_from_all_reducers() {
    let log_entries: Vec<LogEntry> = Vec::new();
    assert!(count_request_types(&log_entries).is_empty());
    assert!(analyze_errors(&log_entries).is_empty());
    assert!(calculate_avg_response_time(&log_entries).is_empty());
}
