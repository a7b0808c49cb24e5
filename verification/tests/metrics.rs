use concurrency::metrics::counter_line;
use concurrency::text::{decimal, join, signed_decimal};
use concurrency::{unknown_key_message, AmapMetrics, Metrics, MetricsError};

fn entry(name: &str, count: i64) -> (String, i64) {
    (name.to_string(), count)
}

#[test]
fn metrics_start_empty() {
    let metrics = Metrics::new();
    assert!(metrics.snapshot().is_empty());
    assert_eq!(metrics.to_string(), "{\n}");
    assert!(Metrics::default().snapshot().is_empty());
}

#[test]
fn inc_creates_a_counter_and_counts_on() {
    let mut metrics = Metrics::new();
    metrics.inc("req.page.1".to_string());
    assert_eq!(metrics.snapshot(), vec![entry("req.page.1", 1)]);
    metrics.inc("call.thread.worker.0".to_string());
    metrics.inc("req.page.1".to_string());
    metrics.inc("req.page.1".to_string());
    assert_eq!(
        metrics.snapshot(),
        vec![entry("req.page.1", 3), entry("call.thread.worker.0", 1)]
    );
}

#[test]
fn counters_never_go_down() {
    let mut metrics = Metrics::new();
    let names = ["a", "b", "a", "c", "b", "a"];
    let mut last: Vec<(String, i64)> = Vec::new();
    for name in names {
        metrics.inc(name.to_string());
        let now = metrics.snapshot();
        for (known, count) in &last {
            let after = now.iter().find(|(n, _)| n == known).unwrap().1;
            assert!(after >= *count);
        }
        last = now;
    }
    assert_eq!(last, vec![entry("a", 3), entry("b", 2), entry("c", 1)]);
}

#[test]
fn snapshot_is_a_copy() {
    let mut metrics = Metrics::new();
    metrics.inc("a".to_string());
    let before = metrics.snapshot();
    metrics.inc("a".to_string());
    assert_eq!(before, vec![entry("a", 1)]);
    assert_eq!(metrics.snapshot(), vec![entry("a", 2)]);
}

#[test]
fn metrics_text_lists_one_counter_a_line() {
    let mut metrics = Metrics::new();
    metrics.inc("req.page.1".to_string());
    metrics.inc("req.page.2".to_string());
    metrics.inc("req.page.1".to_string());
    assert_eq!(
        metrics.to_string(),
        "{\n   \"req.page.1\": 2\n   \"req.page.2\": 1\n}"
    );
}

#[test]
fn metrics_text_escapes_names() {
    let mut metrics = Metrics::new();
    metrics.inc("say \"hi\"\n".to_string());
    assert_eq!(metrics.to_string(), "{\n   \"say \\\"hi\\\"\\n\": 1\n}");
}

#[test]
fn counter_line_frames_label_and_count() {
    assert_eq!(counter_line("\"a\"", 3), "   \"a\": 3\n");
    assert_eq!(counter_line("", 0), "   : 0\n");
    assert_eq!(counter_line("x y", -12), "   x y: -12\n");
}

#[test]
fn count_is_zero_until_a_name_is_counted() {
    let mut metrics = Metrics::new();
    assert_eq!(metrics.count("a"), 0);
    metrics.inc("a".to_string());
    metrics.inc("b".to_string());
    metrics.inc("a".to_string());
    assert_eq!(metrics.count("a"), 2);
    assert_eq!(metrics.count("b"), 1);
    assert_eq!(metrics.count("c"), 0);
}

#[test]
fn amap_starts_with_every_name_at_zero() {
    let metrics = AmapMetrics::new(&["call.thread.worker.0", "req.page.1", "req.page.2"]);
    assert_eq!(
        metrics.to_string(),
        "{\n   \"call.thread.worker.0\": 0\n   \"req.page.1\": 0\n   \"req.page.2\": 0\n}"
    );
    assert_eq!(AmapMetrics::new(&[]).to_string(), "{\n}");
}

#[test]
fn amap_gives_a_repeated_name_one_counter() {
    let metrics = AmapMetrics::new(&["a", "b", "a", "a", "c", "b"]);
    assert_eq!(metrics.to_string(), "{\n   \"a\": 0\n   \"b\": 0\n   \"c\": 0\n}");
}

#[test]
fn amap_counts_known_names() {
    let mut metrics = AmapMetrics::new(&["a", "b"]);
    assert_eq!(metrics.inc("b"), Ok(()));
    assert_eq!(metrics.inc("b"), Ok(()));
    assert_eq!(metrics.inc("a"), Ok(()));
    assert_eq!(metrics.to_string(), "{\n   \"a\": 1\n   \"b\": 2\n}");
}

#[test]
fn amap_rejects_unknown_names() {
    let mut metrics = AmapMetrics::new(&["a", "b"]);
    assert_eq!(metrics.inc("c"), Err(MetricsError::UnknownKey));
    assert_eq!(metrics.inc(""), Err(MetricsError::UnknownKey));
    assert_eq!(metrics.to_string(), "{\n   \"a\": 0\n   \"b\": 0\n}");
}

#[test]
fn decimal_writes_numerals() {
    assert_eq!(decimal(0), "0");
    assert_eq!(decimal(7), "7");
    assert_eq!(decimal(10), "10");
    assert_eq!(decimal(1234567890), "1234567890");
    assert_eq!(decimal(u64::MAX), "18446744073709551615");
}

#[test]
fn signed_decimal_writes_the_sign() {
    assert_eq!(signed_decimal(0), "0");
    assert_eq!(signed_decimal(42), "42");
    assert_eq!(signed_decimal(-1), "-1");
    assert_eq!(signed_decimal(-120), "-120");
    assert_eq!(signed_decimal(i64::MAX), "9223372036854775807");
    assert_eq!(signed_decimal(i64::MIN), "-9223372036854775808");
}

#[test]
fn join_puts_the_separator_between_neighbours() {
    let parts: Vec<String> = ["a", "b", "", "d"].iter().map(|s| s.to_string()).collect();
    assert_eq!(join(&parts, 0, 4, ", "), "a, b, , d");
    assert_eq!(join(&parts, 1, 3, "-"), "b-");
    assert_eq!(join(&parts, 2, 2, "-"), "");
    assert_eq!(join(&parts, 3, 4, "-"), "d");
    assert_eq!(join(&parts, 0, 2, ""), "ab");
}

#[test]
fn unknown_key_message_names_the_key() {
    assert_eq!(unknown_key_message("b"), "key: b is not exist!");
    assert_eq!(unknown_key_message(""), "key:  is not exist!");
    assert_eq!(unknown_key_message("req.page.9"), "key: req.page.9 is not exist!");
}

#[test]
fn amap_unknown_key_leaves_the_text_as_it_was() {
    let mut metrics = AmapMetrics::new(&["a"]);
    assert_eq!(metrics.inc("b"), Err(MetricsError::UnknownKey));
    assert_eq!(unknown_key_message("b"), "key: b is not exist!");
    assert_eq!(metrics.to_string(), "{\n   \"a\": 0\n}");
}
