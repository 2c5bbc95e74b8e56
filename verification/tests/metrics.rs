use spider_enterprise_crawler::metrics::{inc_crawl_failed, inc_crawl_success, success_ratio, CrawlMetrics};

#[test]
fn counters_add_up() {
    let mut m = CrawlMetrics::new();
    assert_eq!(success_ratio(&m), (1, 1));
    inc_crawl_success(&mut m);
    inc_crawl_success(&mut m);
    inc_crawl_failed(&mut m);
    assert_eq!(m.total(), 3);
    assert_eq!(m.success(), 2);
    assert_eq!(m.failed(), 1);
    assert_eq!(m.total(), m.success() + m.failed());
    assert_eq!(success_ratio(&m), (2, 3));
}

fn at_least(a: (u64, u64), b: (u64, u64)) -> bool {
    // a.0 / a.1 >= b.0 / b.1, compared without division.
    (a.0 as u128) * (b.1 as u128) >= (b.0 as u128) * (a.1 as u128)
}

#[test]
fn ratio_rises_with_success_and_falls_with_failure() {
    let mut m = CrawlMetrics::new();
    inc_crawl_failed(&mut m);
    inc_crawl_success(&mut m);
    let r0 = success_ratio(&m);
    assert_eq!(r0, (1, 2));
    inc_crawl_success(&mut m);
    let r1 = success_ratio(&m);
    assert_eq!(r1, (2, 3));
    assert!(at_least(r1, r0));
    inc_crawl_failed(&mut m);
    let r2 = success_ratio(&m);
    assert_eq!(r2, (2, 4));
    assert!(at_least(r1, r2));
}
