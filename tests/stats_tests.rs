use crawlstorm::stats::{
    count_outcomes, mean, median, percentile, sort_durations, summarize, HttpResponse,
    HttpResult,
};

fn resp(status: u16, duration: u64, length: usize) -> HttpResult {
    HttpResult::Response(HttpResponse { status, duration, length })
}

#[test]
fn percentile_index() {
    let v: Vec<u64> = (0..100).collect();
    assert_eq!(percentile(&v, 95), 95);
    assert_eq!(percentile(&v, 99), 99);
    let w: Vec<u64> = vec![10, 20, 30];
    assert_eq!(percentile(&w, 95), 30);
    assert_eq!(percentile(&w, 50), 20);
    let one: Vec<u64> = vec![7];
    assert_eq!(percentile(&one, 99), 7);
}

#[test]
fn sorting_and_median() {
    let mut v: Vec<u64> = vec![5, 1, 4, 1, 3];
    sort_durations(&mut v);
    assert_eq!(v, vec![1, 1, 3, 4, 5]);
    assert_eq!(median(&v), 3);
    let even: Vec<u64> = vec![1, 2, 3, 10];
    assert_eq!(median(&even), 2);
    assert_eq!(mean(&even), 4);
}

#[test]
fn summary_of_mixed_results() {
    let results = vec![
        resp(200, 30, 100),
        HttpResult::Error("connection refused".to_string()),
        resp(404, 10, 0),
        resp(200, 20, 50),
    ];
    assert_eq!(count_outcomes(&results), (3, 1));
    let s = summarize(&results);
    assert_eq!(s.responses, 3);
    assert_eq!(s.errors, 1);
    assert_eq!(s.total_length, 150);
    assert_eq!(s.mean_ms, 20);
    assert_eq!(s.median_ms, 20);
    assert_eq!(s.p95_ms, 30);
    assert_eq!(s.p99_ms, 30);
    let mut codes = s.status_codes.clone();
    codes.sort();
    assert_eq!(codes, vec![(200, 2), (404, 1)]);
}

#[test]
fn summary_without_responses() {
    let results = vec![HttpResult::Error("timeout".to_string())];
    let s = summarize(&results);
    assert_eq!(s.responses, 0);
    assert_eq!(s.errors, 1);
    assert_eq!(s.mean_ms, 0);
    assert_eq!(s.p95_ms, 0);
    assert!(s.status_codes.is_empty());
}
