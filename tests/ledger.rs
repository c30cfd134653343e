use pipespeed::ledger::Ledger;
use pipespeed::report::{window_speed, window_start, window_status_line};

#[test]
fn records_in_one_bucket_add_up() {
    let mut l = Ledger::new();
    l.record(5, 100);
    l.record(5, 50);
    assert_eq!(l.windowed_sum(0), 150);
    assert_eq!(l.windowed_sum(5), 150);
    assert_eq!(l.windowed_sum(6), 0);
    assert_eq!(l.total(), 150);
}

#[test]
fn empty_ledger_sums_to_zero() {
    let l = Ledger::new();
    assert_eq!(l.windowed_sum(0), 0);
    assert_eq!(l.total(), 0);
}

#[test]
fn zero_amount_changes_nothing() {
    let mut l = Ledger::new();
    l.record(3, 0);
    assert_eq!(l.windowed_sum(0), 0);
    l.record(3, 7);
    l.record(3, 0);
    assert_eq!(l.windowed_sum(3), 7);
}

#[test]
fn repeated_records_lose_nothing() {
    let mut l = Ledger::new();
    let n: u64 = 1000;
    let amount: u64 = 4096;
    for _ in 0..n {
        l.record(2, amount);
    }
    assert_eq!(l.windowed_sum(0), n * amount);
    assert_eq!(l.windowed_sum(2), n * amount);
    assert_eq!(l.windowed_sum(3), 0);
}

#[test]
fn records_through_shared_handles_lose_nothing() {
    let ledger = std::sync::Arc::new(std::sync::Mutex::new(Ledger::new()));
    let handles: Vec<_> = (0..8).map(|_| ledger.clone()).collect();
    for _ in 0..100 {
        for h in handles.iter() {
            h.lock().unwrap().record(9, 3);
        }
    }
    assert_eq!(ledger.lock().unwrap().windowed_sum(0), 8 * 100 * 3);
}

#[test]
fn out_of_order_buckets() {
    let mut l = Ledger::new();
    l.record(7, 1);
    l.record(2, 10);
    l.record(7, 100);
    l.record(4, 1000);
    assert_eq!(l.windowed_sum(0), 1111);
    assert_eq!(l.windowed_sum(3), 1101);
    assert_eq!(l.windowed_sum(5), 101);
    assert_eq!(l.windowed_sum(8), 0);
}

#[test]
fn window_keeps_last_ten_seconds() {
    let mut l = Ledger::new();
    for s in 0..=25u64 {
        l.record(s, 1 << s);
    }
    let start = window_start(25);
    assert_eq!(start, 15);
    let expected: u64 = (15..=25u64).map(|s| 1u64 << s).sum();
    assert_eq!(l.windowed_sum(start), expected);
    assert!(l.windowed_sum(start) & ((1 << 15) - 1) == 0);
    assert_eq!(l.windowed_sum(14) - l.windowed_sum(15), 1 << 14);
}

#[test]
fn window_start_near_beginning() {
    assert_eq!(window_start(0), 0);
    assert_eq!(window_start(9), 0);
    assert_eq!(window_start(10), 0);
    assert_eq!(window_start(11), 1);
}

#[test]
fn no_elapsed_time_means_zero_speed() {
    let mut l = Ledger::new();
    l.record(0, 5000);
    let s = window_speed(&l, 0);
    assert_eq!(s.bytes, 0);
    assert_eq!(String::from_utf8(window_status_line(&l, 0)).unwrap(), "0.00 B/s\n");
}

#[test]
fn speed_over_short_window() {
    let mut l = Ledger::new();
    l.record(0, 1024);
    l.record(1, 2048);
    let s = window_speed(&l, 2);
    assert_eq!(s.bytes, 3072);
    assert_eq!(String::from_utf8(window_status_line(&l, 2)).unwrap(), "1.50 KiB/s\n");
}

#[test]
fn speed_over_full_window() {
    let mut l = Ledger::new();
    for s in 0..=20u64 {
        l.record(s, 1024 * 1024);
    }
    // buckets 10..=20 fall in the window that ends at 20
    let s = window_speed(&l, 20);
    assert_eq!(s.bytes, 11 * 1024 * 1024);
    assert_eq!(String::from_utf8(window_status_line(&l, 20)).unwrap(), "1.10 MiB/s\n");
}
