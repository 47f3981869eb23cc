use threaded::report::{decimal_string, outcome_of, report_line, starting_line, Outcome, Stream};

#[test]
fn decimal_of_small_and_large_numbers() {
    assert_eq!(decimal_string(0), "0");
    assert_eq!(decimal_string(7), "7");
    assert_eq!(decimal_string(10), "10");
    assert_eq!(decimal_string(12345), "12345");
    assert_eq!(decimal_string(usize::MAX), usize::MAX.to_string());
}

#[test]
fn completed_jobs_report_on_stdout_in_completion_order() {
    // Durations 300, 200, 100 ms were submitted as jobs 0, 1, 2; the shortest
    // finishes first, and each report carries the job's own id.
    let finished = [(2usize, "job 2 processed in 100ms"), (1, "job 1 processed in 200ms"), (0, "job 0 processed in 300ms")];
    let lines: Vec<String> = finished
        .iter()
        .map(|(id, v)| report_line(*id, &Outcome::Completed(v.to_string())).text)
        .collect();
    assert_eq!(
        lines,
        vec![
            "Thread 2: job 2 processed in 100ms",
            "Thread 1: job 1 processed in 200ms",
            "Thread 0: job 0 processed in 300ms",
        ]
    );
}

#[test]
fn custom_command_value_is_reported_raw() {
    let r = report_line(0, &Outcome::Completed("warble, oh my".to_string()));
    assert!(r.stream == Stream::Stdout);
    assert_eq!(r.text, "Thread 0: warble, oh my");
}

#[test]
fn failed_job_reports_on_stderr() {
    let r = report_line(3, &Outcome::Failed("boom".to_string()));
    assert!(r.stream == Stream::Stderr);
    assert_eq!(r.text, "Thread 3: Error: boom");
}

#[test]
fn cancelled_job_reports_on_stderr() {
    let r = report_line(11, &Outcome::Cancelled);
    assert!(r.stream == Stream::Stderr);
    assert_eq!(r.text, "Thread 11: Cancelled");
}

#[test]
fn starting_line_names_the_job() {
    assert_eq!(starting_line(0), "Thread 0 starting execution");
    assert_eq!(starting_line(42), "Thread 42 starting execution");
}

#[test]
fn outcome_follows_result_and_cancellation() {
    assert!(matches!(outcome_of(Ok("v".to_string()), false), Outcome::Completed(v) if v == "v"));
    assert!(matches!(outcome_of(Ok("v".to_string()), true), Outcome::Completed(v) if v == "v"));
    assert!(matches!(outcome_of(Err("e".to_string()), false), Outcome::Failed(e) if e == "e"));
    assert!(matches!(outcome_of(Err("e".to_string()), true), Outcome::Cancelled));
}

#[test]
fn same_value_twice_reports_identically() {
    let first = report_line(5, &outcome_of(Ok("HELLO".to_string()), false));
    let second = report_line(5, &outcome_of(Ok("HELLO".to_string()), false));
    assert_eq!(first.text, second.text);
    assert_eq!(first.text, "Thread 5: HELLO");
}

#[test]
fn every_id_appears_once_across_reports() {
    let outcomes = vec![
        Outcome::Completed("a".to_string()),
        Outcome::Failed("b".to_string()),
        Outcome::Cancelled,
        Outcome::Completed("Thread 0: x".to_string()),
    ];
    let lines: Vec<String> = outcomes.iter().enumerate().map(|(i, o)| report_line(i, o).text).collect();
    for (i, line) in lines.iter().enumerate() {
        let tag = format!("Thread {}: ", i);
        assert!(line.starts_with(&tag));
        let owners = lines.iter().filter(|l| l.starts_with(&tag)).count();
        assert_eq!(owners, 1);
    }
}
