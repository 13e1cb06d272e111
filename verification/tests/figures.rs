use lime::api::{reset_metrics_handler, MetricsCollector, PaginatedResponse, Pagination};
use lime::text;
use lime::text_map::TextMap;

const SECOND: u64 = 1_000_000_000;

#[test]
fn pages_are_counted_as_by_division_of_doubles() {
    let totals = vec![
        0u64,
        1,
        9,
        10,
        11,
        99,
        100,
        101,
        4_294_967_295,
        4_294_967_296,
        42_949_672_960,
        42_949_672_961,
        9_007_199_254_740_991,
        9_007_199_254_740_993,
        9_007_199_254_740_995,
        u64::MAX,
        u64::MAX - 1,
        u64::MAX - 1024,
        u64::MAX - 1025,
    ];
    for total in totals {
        for per_page in vec![0u32, 1, 2, 3, 7, 10, 1_000, 65_537, 4_294_967_291, u32::MAX] {
            let expected = ((total as f64) / (per_page as f64)).ceil() as u32;
            let pagination = Pagination::new(1, per_page, total);
            assert_eq!(pagination.total_pages, expected, "{} by {}", total, per_page);
        }
    }
    let mut x: u64 = 88172645463325252;
    for _ in 0..20_000 {
        x ^= x << 13;
        x ^= x >> 7;
        x ^= x << 17;
        let per_page = (x >> 32) as u32 >> (x % 31);
        let total = x >> (x % 53);
        let expected = ((total as f64) / (per_page as f64)).ceil() as u32;
        assert_eq!(Pagination::new(1, per_page, total).total_pages, expected);
    }
}

#[test]
fn a_page_has_its_place() {
    let pagination = Pagination::new(3, 10, 95);
    assert_eq!(pagination.total_pages, 10);
    assert_eq!(pagination.offset(), 20);
    assert_eq!(pagination.limit(), 10);
    let page = PaginatedResponse::new(vec![1, 2], pagination);
    assert_eq!(page.data, vec![1, 2]);
    assert_eq!(page.pagination.page, 3);
}

#[test]
fn requests_are_counted() {
    let mut metrics = MetricsCollector::new(0);
    let none = metrics.get_metrics(5 * SECOND);
    assert_eq!(none.requests_total, 0);
    assert_eq!(none.uptime_seconds, 5);
    metrics.record_request(10, 200, SECOND);
    metrics.record_request(20, 399, 2 * SECOND);
    metrics.record_request(40, 400, 3 * SECOND);
    metrics.record_request(50, 503, 3 * SECOND);
    let some = metrics.get_metrics(90 * SECOND + 1);
    assert_eq!(some.requests_total, 4);
    assert_eq!(some.requests_success, 2);
    assert_eq!(some.requests_error, 2);
    assert_eq!(some.uptime_seconds, 90);
    let response = reset_metrics_handler(&mut metrics);
    assert_eq!(response.status().as_u16(), 200);
    assert_eq!(response.body(), "{\"message\":\"Metrics reset successfully\"}");
    assert_eq!(metrics.get_metrics(91 * SECOND).requests_total, 0);
}

#[test]
fn maps_keep_what_was_put_last() {
    let mut map: TextMap<u32> = TextMap::new();
    map.insert("a".to_string(), 1);
    map.insert("b".to_string(), 2);
    map.insert("a".to_string(), 3);
    assert_eq!(map.len(), 2);
    assert_eq!(map.get("a"), Some(&3));
    assert_eq!(map.entry(0), (&"a".to_string(), &3));
    assert_eq!(map.remove("a"), Some(3));
    assert_eq!(map.remove("a"), None);
    assert_eq!(map.get("b"), Some(&2));
}

#[test]
fn texts_are_cut_and_joined() {
    assert_eq!(text::split_text("a,,b", ','), vec!["a", "", "b"]);
    assert_eq!(text::split_text("", ','), vec![""]);
    assert_eq!(text::split_non_empty("/a//b/", '/'), vec!["a", "b"]);
    assert_eq!(text::join_text(&vec!["a".to_string(), "b".to_string()], ", "), "a, b");
    assert_eq!(text::cut_text("a=b=c", '='), Some(("a".to_string(), "b=c".to_string())));
    assert_eq!(text::cut_text("abc", '='), None);
    assert_eq!(text::trim_text(" \t\u{2003}x y\n"), "x y");
    assert_eq!(text::replace_text("aXbXX", "X", "--"), "a--b----");
    assert_eq!(text::i64_text(i64::MIN), i64::MIN.to_string());
    assert_eq!(text::u64_text(u64::MAX), u64::MAX.to_string());
    assert_eq!(text::u128_text(u128::MAX), u128::MAX.to_string());
    assert_eq!(text::parse_usize("+0042"), Some(42));
    assert_eq!(text::parse_usize("18446744073709551615"), Some(usize::MAX));
    assert_eq!(text::parse_usize("18446744073709551616"), None);
    assert_eq!(text::parse_usize("-1"), None);
    assert_eq!(text::parse_usize("+"), None);
}

#[test]
fn times_are_added_up() {
    let mut metrics = MetricsCollector::new(0);
    for time in vec![10u64, 0, 25, 7] {
        metrics.record_request(time, 200, SECOND);
    }
    let average = metrics.get_metrics(SECOND).average_response_time_ms;
    assert_eq!((average.numerator, average.denominator), (42, 4));
}
