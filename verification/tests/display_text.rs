use sysmon::event::{poll_timeout, tick_due};
use sysmon::export::export_filename;
use sysmon::history::HistoryBuffer;
use sysmon::process::SortBy;
use sysmon::ui::{chart_split, format_uptime, kilobytes, process_table_title, sort_label};

#[test]
fn uptime_formats_days_hours_minutes_seconds() {
    assert_eq!(format_uptime(0), "0d 0h 0m 0s");
    assert_eq!(format_uptime(59), "0d 0h 0m 59s");
    assert_eq!(format_uptime(90061), "1d 1h 1m 1s");
    assert_eq!(format_uptime(86399), "0d 23h 59m 59s");
    assert_eq!(format_uptime(1_000_000), "11d 13h 46m 40s");
}

#[test]
fn uptime_handles_largest_value() {
    assert_eq!(format_uptime(u64::MAX), "213503982334601d 7h 0m 15s");
}

#[test]
fn sort_labels() {
    assert_eq!(sort_label(SortBy::Cpu), "Sort: CPU (s)");
    assert_eq!(sort_label(SortBy::Memory), "Sort: Mem (s)");
    assert_eq!(sort_label(SortBy::Pid), "Sort: PID (s)");
    assert_eq!(sort_label(SortBy::Name), "Sort: Name (s)");
}

#[test]
fn table_title_counts_processes() {
    assert_eq!(
        process_table_title(123, SortBy::Cpu),
        " Processes [Total: 123] | Sort: CPU (s) | Arrows to navigate "
    );
}

#[test]
fn charts_split_by_width() {
    assert_eq!(chart_split(101), (33, 33, 33));
    assert_eq!(chart_split(100), (50, 50, 0));
    assert_eq!(chart_split(0), (50, 50, 0));
}

#[test]
fn network_history_in_kibibytes() {
    let mut h = HistoryBuffer::new(3);
    for x in [1023u64, 1024, 5000, 2048] {
        h.push(x);
    }
    assert_eq!(kilobytes(&h), vec![1, 4, 2]);
}

#[test]
fn poll_waits_for_rest_of_tick() {
    assert_eq!(poll_timeout(250, 100), 150);
    assert_eq!(poll_timeout(250, 250), 0);
    assert_eq!(poll_timeout(250, 300), 0);
    assert!(tick_due(250, 250));
    assert!(!tick_due(249, 250));
}

#[test]
fn export_file_name() {
    assert_eq!(export_filename("20240102_030405"), "sysmon_export_20240102_030405.csv");
}
