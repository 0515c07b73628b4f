use sysmon::history::{log_line, HistoryBuffer};

fn contents(h: &HistoryBuffer<u64>) -> Vec<u64> {
    h.iter().copied().collect()
}

#[test]
fn new_history_is_empty() {
    let h: HistoryBuffer<u64> = HistoryBuffer::new(5);
    assert_eq!(contents(&h), Vec::<u64>::new());
    assert_eq!(h.latest(), None);
}

#[test]
fn push_within_capacity_keeps_everything() {
    let mut h = HistoryBuffer::new(3);
    h.push(1u64);
    h.push(2);
    assert_eq!(contents(&h), vec![1, 2]);
    assert_eq!(h.latest(), Some(&2));
}

#[test]
fn push_over_capacity_drops_oldest() {
    let mut h = HistoryBuffer::new(3);
    for x in 1u64..=5 {
        h.push(x);
    }
    assert_eq!(contents(&h), vec![3, 4, 5]);
    assert_eq!(h.latest(), Some(&5));
}

#[test]
fn len_counts_entries_up_to_capacity() {
    let mut h = HistoryBuffer::new(2);
    assert_eq!(h.len(), 0);
    h.push(1u64);
    assert_eq!(h.len(), 1);
    h.push(2);
    h.push(3);
    assert_eq!(h.len(), 2);
    let mut z = HistoryBuffer::new(0);
    z.push(1u64);
    z.push(2);
    assert_eq!(z.len(), 1);
}

#[test]
fn zero_capacity_keeps_only_latest() {
    let mut h = HistoryBuffer::new(0);
    h.push(7u64);
    assert_eq!(contents(&h), vec![7]);
    h.push(8);
    assert_eq!(contents(&h), vec![8]);
}

#[test]
fn window_holds_last_capacity_items() {
    let mut h = HistoryBuffer::new(100);
    for x in 0u64..250 {
        h.push(x);
    }
    assert_eq!(contents(&h), (150u64..250).collect::<Vec<_>>());
    assert_eq!(h.latest(), Some(&249));
}

#[test]
fn iter_is_oldest_first_and_exact_size() {
    let mut h = HistoryBuffer::new(4);
    for x in [10u64, 20, 30] {
        h.push(x);
    }
    assert_eq!(h.iter().len(), 3);
    assert_eq!(h.iter().nth(1), Some(&20));
}

#[test]
fn log_line_brackets_the_timestamp() {
    assert_eq!(log_line("2024-01-02 03:04:05", "hello").as_str(), "[2024-01-02 03:04:05] hello");
}
