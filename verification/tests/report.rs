use log_analyzer::report::{dec_str, render_csv, render_plain};

#[test]
fn decimal_rendering_is_exact() {
    assert_eq!(dec_str(0), "0");
    assert_eq!(dec_str(7), "7");
    assert_eq!(dec_str(10), "10");
    assert_eq!(dec_str(404), "404");
    assert_eq!(dec_str(65535), "65535");
    assert_eq!(dec_str(4294967295), "4294967295");
}

#[test]
fn empty_aggregates_render_as_headers_only_in_both_formats() {
    let counts: Vec<(String, usize)> = Vec::new();
    let errors: Vec<((String, u16), usize)> = Vec::new();
    let avgs: Vec<(String, u32)> = Vec::new();

    let plain = render_plain(&counts, &errors, &avgs);
    assert_eq!(
        plain,
        "Request Summary:\n\nError Analysis:\n\nPerformance Metrics:\n"
    );

    let csv = render_csv(&counts, &errors, &avgs);
    assert_eq!(csv, "Request Summary\n\nError Analysis\n\nPerformance Metrics\n");
}

#[test]
fn plain_report_renders_all_three_sections() {
    let counts = vec![("GET".to_string(), 2usize), ("POST".to_string(), 1usize)];
    let errors = vec![
        (("/login".to_string(), 404u16), 2usize),
        (("/login".to_string(), 500u16), 1usize),
    ];
    let avgs = vec![("/login".to_string(), 120u32)];

    let report = render_plain(&counts, &errors, &avgs);
    assert_eq!(
        report,
        "Request Summary:\n\
         GET: 2\n\
         POST: 1\n\
         \n\
         Error Analysis:\n\
         Endpoint: /login, Status Code: 404: 2\n\
         Endpoint: /login, Status Code: 500: 1\n\
         \n\
         Performance Metrics:\n\
         Endpoint: /login, Avg. Response Time: 120 ms\n"
    );
}

#[test]
fn csv_report_renders_all_three_sections() {
    let counts = vec![("GET".to_string(), 2usize)];
    let errors = vec![(("/login".to_string(), 404u16), 2usize)];
    let avgs = vec![("/login".to_string(), 120u32), ("/home".to_string(), 3u32)];

    let report = render_csv(&counts, &errors, &avgs);
    assert_eq!(
        report,
        "Request Summary\n\
         GET,2\n\
         \n\
         Error Analysis\n\
         /login,404,2\n\
         \n\
         Performance Metrics\n\
         /login,120\n\
         /home,3\n"
    );
}
