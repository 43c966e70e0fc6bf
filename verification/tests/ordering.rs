use catacomb::desktop::{card_matches, order_by_date, order_by_size, order_by_title, recent_order};
use catacomb::order::{stable_order_num, stable_order_text};
use catacomb::stats::{top_n, upload_year, week_histogram, year_histogram, WEEK_SECS};

fn strs(v: &[&str]) -> Vec<String> {
    v.iter().map(|s| s.to_string()).collect()
}

#[test]
fn stable_numeric_orders() {
    let k = vec![3u64, 1, 3, 0, 1];
    assert_eq!(stable_order_num(&k, false), vec![3, 1, 4, 0, 2]);
    assert_eq!(stable_order_num(&k, true), vec![0, 2, 1, 4, 3]);
    assert!(stable_order_num(&Vec::new(), true).is_empty());
}

#[test]
fn stable_text_orders_put_missing_last() {
    let k = vec![
        (false, "b".chars().collect::<Vec<char>>()),
        (true, Vec::new()),
        (false, "a".chars().collect()),
        (false, "b".chars().collect()),
    ];
    assert_eq!(stable_order_text(&k, false), vec![2, 0, 3, 1]);
    assert_eq!(stable_order_text(&k, true), vec![1, 0, 3, 2]);
}

#[test]
fn grid_search_is_case_insensitive_on_title_or_id() {
    assert!(card_matches("  ", "Anything", "x"));
    assert!(card_matches("RUST", "Learning rust today", "x"));
    assert!(card_matches("abc", "Title", "xABCx"));
    assert!(!card_matches("zzz", "Title", "id"));
}

#[test]
fn grid_sort_modes() {
    let titles = strs(&["beta", "Alpha", "alpha", "Gamma"]);
    assert_eq!(order_by_title(&titles), vec![1, 2, 0, 3]);
    let sizes = vec![Some(5), None, Some(5), Some(1)];
    assert_eq!(order_by_size(&sizes, false), vec![1, 3, 0, 2]);
    // Largest first is the ascending order reversed as a whole.
    assert_eq!(order_by_size(&sizes, true), vec![2, 0, 3, 1]);
    let dates = vec![Some("20200101".to_string()), None, Some("20230101".to_string()), Some("20200101".to_string())];
    assert_eq!(order_by_date(&dates, true), vec![2, 0, 3, 1]);
    assert_eq!(order_by_date(&dates, false), vec![0, 3, 2, 1]);
}

#[test]
fn recent_view_keeps_newest_hundred() {
    let mtimes: Vec<u64> = (0..150).map(|i| (i * 7919) % 1000).collect();
    let p = recent_order(&mtimes);
    assert_eq!(p.len(), 100);
    let kept_min = p.iter().map(|&i| mtimes[i]).min().unwrap();
    for i in 0..150 {
        if !p.contains(&i) {
            assert!(mtimes[i] <= kept_min);
        }
    }
}

#[test]
fn recent_view_keeps_earliest_among_equal_times() {
    // 120 videos with the same time: the first 100 are kept, in order.
    let mtimes: Vec<u64> = vec![5; 120];
    assert_eq!(recent_order(&mtimes), (0..100).collect::<Vec<usize>>());
    let mut mixed = vec![1u64; 110];
    mixed[105] = 9;
    let p = recent_order(&mixed);
    assert_eq!(p[0], 105);
    assert_eq!(&p[1..], &(0..99).collect::<Vec<usize>>()[..]);
}

#[test]
fn stats_tables() {
    assert_eq!(top_n(&vec![10, 30, 20, 30], 2), vec![1, 3]);
    assert_eq!(upload_year("20240131"), Some(2024));
    assert_eq!(upload_year("202"), None);
    assert_eq!(upload_year("abcd1234"), None);
    let ys = vec![Some(2021), None, Some(2019), Some(2021)];
    let h = year_histogram(&ys);
    let rows: Vec<(u32, usize)> = h.iter().map(|r| (r.year, r.count)).collect();
    assert_eq!(rows, vec![(2019, 1), (2021, 2)]);
}

#[test]
fn week_histogram_covers_twelve_weeks() {
    // A Monday well after the epoch.
    let now = 345_600 + 3000 * WEEK_SECS + 100;
    let current = 345_600 + 3000 * WEEK_SECS;
    let oldest = current - 11 * WEEK_SECS;
    let items = vec![(current + 5, 10u64), (oldest + 1, 7), (oldest - 1, 100), (current + 60, 1)];
    let h = week_histogram(now, &items);
    assert_eq!(h.len(), 12);
    assert_eq!(h[0].week_start_unix, oldest);
    assert_eq!((h[0].count, h[0].size_bytes), (1, 7));
    assert_eq!((h[11].count, h[11].size_bytes), (2, 11));
    assert!(h[1..11].iter().all(|w| w.count == 0 && w.size_bytes == 0));
}
