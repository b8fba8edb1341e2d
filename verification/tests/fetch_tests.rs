use exact_client::errors::ClientError;
use exact_client::fetch::{Fetcher, CancellationRegistry, cancel_checkpoint, collect_pages,
    strip_base, next_path_of, UNKNOWN_TOTAL};

#[test]
fn pages_accumulate_in_order() {
    // Three cursor-linked pages and a final page without a cursor: the
    // result is the concatenation in page order, per-page order kept.
    let mut f: Fetcher<i32> = Fetcher::begin();
    let pages: Vec<(Vec<i32>, Option<String>)> = vec![
        (vec![1, 2], Some(String::from("https://api/p2"))),
        (vec![3], Some(String::from("https://api/p3"))),
        (vec![4, 5, 6], None),
    ];
    let mut cursor: Option<String> = Some(String::from("/p1"));
    let mut served = 0;
    while cursor.is_some() {
        let (records, next) = pages[served].clone();
        served += 1;
        f.absorb_page(records);
        cursor = next_path_of(next, "https://api");
    }
    assert_eq!(served, 3);
    assert_eq!(f.finish(), vec![1, 2, 3, 4, 5, 6]);
}

#[test]
fn whole_runs_concatenate_pages() {
    let pages = vec![vec![1, 2], vec![], vec![3], vec![4, 5, 6]];
    assert_eq!(collect_pages(pages), vec![1, 2, 3, 4, 5, 6]);
    let empty: Vec<Vec<i32>> = Vec::new();
    assert_eq!(collect_pages(empty), Vec::<i32>::new());
}

#[test]
fn cursor_is_normalized_against_the_base() {
    assert_eq!(
        strip_base("https://api/v1/x?$skiptoken=9", "https://api").as_str(),
        "/v1/x?$skiptoken=9"
    );
    assert_eq!(strip_base("relative/path", "https://api").as_str(), "relative/path");
    assert_eq!(strip_base("http", "https://api").as_str(), "http");
    assert!(next_path_of(None, "https://api").is_none());
}

#[test]
fn cancellation_before_second_page_discards_the_first() {
    let mut reg = CancellationRegistry::new();
    reg.register();
    let mut f: Fetcher<i32> = Fetcher::begin();
    assert!(cancel_checkpoint(reg.observed()).is_ok());
    f.absorb_page(vec![10, 20]);
    // The cancel request lands before the second page is fetched.
    reg.cancel();
    let outcome = cancel_checkpoint(reg.observed());
    assert_eq!(outcome.unwrap_err(), ClientError::Cancelled);
    reg.clear();
    assert!(!reg.observed());
    // The fetch aborts with `Cancelled` alone: the accumulated first page
    // is dropped with the fetcher, never returned.
    drop(f);
}

#[test]
fn cancel_with_no_active_fetch_never_fails() {
    let mut reg = CancellationRegistry::new();
    reg.cancel();
    assert!(!reg.observed());
    reg.register();
    assert!(!reg.observed());
    reg.cancel();
    assert!(reg.observed());
}

#[test]
fn progress_reports_probe_total_and_running_counts() {
    // Count probe answers 42; pages of 20, 20 and 2 records follow.
    let mut f: Fetcher<u8> = Fetcher::begin();
    assert_eq!(f.total, UNKNOWN_TOTAL);
    f.record_total(42);
    let e0 = f.initial_progress();
    assert_eq!((e0.current, e0.total), (0, 42));
    assert_eq!(e0.message.as_str(), "Found 42 transactions, starting fetch...");
    let mut counts = Vec::new();
    for n in [20usize, 20, 2] {
        f.absorb_page(vec![0; n]);
        let e = f.page_progress();
        assert_eq!(e.total, 42);
        counts.push(e.current);
    }
    assert_eq!(counts, vec![20, 40, 42]);
    let e = f.page_progress();
    assert_eq!(e.message.as_str(), "Fetched 42 of 42 transactions...");
}

#[test]
fn progress_without_probe_reports_unknown_total() {
    let mut f: Fetcher<u8> = Fetcher::begin();
    f.absorb_page(vec![0; 7]);
    let e = f.page_progress();
    assert_eq!((e.current, e.total), (7, -1));
    assert_eq!(e.message.as_str(), "Fetched 7 transactions so far...");
}
